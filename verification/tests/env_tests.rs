//! The in-memory environment: storage by byte key and per-call inputs.

use liquid_dispatch::env::{CallMode, Env, EnvError};

fn fresh_env() -> Env {
    Env::new(vec![0xde, 0xad, 0xbe, 0xef, 7], CallMode::Call, vec![0x11; 20])
}

#[test]
fn set_storage_then_get_storage() {
    let mut env = fresh_env();
    env.set_storage(&b"balance".to_vec(), vec![1, 2, 3]);
    assert_eq!(env.get_storage(&b"balance".to_vec()), Ok(vec![1, 2, 3]));
    // Overwriting replaces the old value.
    env.set_storage(&b"balance".to_vec(), vec![9]);
    assert_eq!(env.get_storage(&b"balance".to_vec()), Ok(vec![9]));
    // Other keys are untouched.
    env.set_storage(&b"owner".to_vec(), vec![5]);
    assert_eq!(env.get_storage(&b"balance".to_vec()), Ok(vec![9]));
    assert_eq!(env.get_storage(&b"owner".to_vec()), Ok(vec![5]));
}

#[test]
fn get_storage_of_absent_key_fails() {
    let env = fresh_env();
    assert_eq!(env.get_storage(&b"nothing".to_vec()), Err(EnvError::KeyNotFound));
}

#[test]
fn remove_storage_deletes_one_key() {
    let mut env = fresh_env();
    env.set_storage(&b"a".to_vec(), vec![1]);
    env.set_storage(&b"b".to_vec(), vec![2]);
    env.remove_storage(&b"a".to_vec());
    assert_eq!(env.get_storage(&b"a".to_vec()), Err(EnvError::KeyNotFound));
    assert_eq!(env.get_storage(&b"b".to_vec()), Ok(vec![2]));
    // Removing an absent key is harmless.
    env.remove_storage(&b"a".to_vec());
    assert_eq!(env.get_storage(&b"b".to_vec()), Ok(vec![2]));
}

#[test]
fn get_call_data_checks_mode_and_length() {
    let env = fresh_env();
    let cd = env.get_call_data(CallMode::Call).expect("mode matches");
    assert_eq!(cd.selector, 0xdeadbeef);
    assert_eq!(cd.payload, vec![7]);
    assert!(matches!(env.get_call_data(CallMode::Deploy), Err(EnvError::WrongCallMode)));

    let short = Env::new(vec![1, 2], CallMode::Call, vec![0; 20]);
    assert!(matches!(short.get_call_data(CallMode::Call), Err(EnvError::MalformedCallData)));
}

#[test]
fn get_caller_returns_the_callers_address() {
    let env = fresh_env();
    assert_eq!(env.get_caller(), vec![0x11; 20]);
}
