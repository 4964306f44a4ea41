use shadow_lock::entry::verify;
use shadow_lock::errors::ShadowLockError;
use shadow_lock::transaction::{Cell, Transaction};

/// Hash of the lock script of the key holder, the delegate of every policy here.
const ORIGINAL_LOCK_HASH: [u8; 32] = [0x3c; 32];

/// Hash of the shadow lock script; a type script made of the same code and
/// arguments has the same hash.
const SHADOW_SCRIPT_HASH: [u8; 32] = [0x9d; 32];

/// Hash of the lock script of a buyer.
const TRADE_LOCK_HASH: [u8; 32] = [0x47; 32];

/// Data hash of a cell without data.
const EMPTY_DATA_HASH: [u8; 32] = [0u8; 32];

fn build_lock_args(mode: u8, script_hash: [u8; 32]) -> Vec<u8> {
    [mode].iter().chain(script_hash.iter()).cloned().collect::<Vec<u8>>()
}

fn cell(lock_hash: [u8; 32], type_hash: Option<[u8; 32]>) -> Cell {
    Cell { lock_hash, type_hash, data_hash: EMPTY_DATA_HASH }
}

#[test]
fn test_shadow_lock() {
    // disable all features
    let mode = 0b00000000;
    let lock_args = build_lock_args(mode, ORIGINAL_LOCK_HASH);

    // first cell, normal lock cell as key unlocker; second cell, shadow lock cell
    let inputs = vec![cell(ORIGINAL_LOCK_HASH, None), cell(SHADOW_SCRIPT_HASH, None)];
    let outputs = vec![cell(ORIGINAL_LOCK_HASH, None), cell(ORIGINAL_LOCK_HASH, None)];

    let tx = Transaction::new(SHADOW_SCRIPT_HASH, lock_args, inputs, outputs);
    assert_eq!(tx.group_inputs, vec![1]);
    assert_eq!(verify(&tx), Ok(()));
}

#[test]
fn test_shadow_lock_failure() {
    let mode = 0b00000110;
    let lock_args = build_lock_args(mode, ORIGINAL_LOCK_HASH);

    // the shadow lock cell alone, without the key unlocker
    let inputs = vec![cell(SHADOW_SCRIPT_HASH, None)];
    let outputs = vec![cell(ORIGINAL_LOCK_HASH, None), cell(ORIGINAL_LOCK_HASH, None)];

    let tx = Transaction::new(SHADOW_SCRIPT_HASH, lock_args, inputs, outputs);
    assert_eq!(tx.group_inputs, vec![0]);
    assert!(verify(&tx).is_err());
    assert_eq!(verify(&tx), Err(ShadowLockError::OwnershipVerificationFailure));
}

#[test]
fn test_shadow_lock_self_destruction_verify() {
    // delegate script hash = lock.hash
    // forbid trade = true
    // self destruction = true
    let mode = 0b00000110;
    let lock_args = build_lock_args(mode, ORIGINAL_LOCK_HASH);
    let type_hash = Some(SHADOW_SCRIPT_HASH);

    let inputs = vec![cell(ORIGINAL_LOCK_HASH, None), cell(SHADOW_SCRIPT_HASH, type_hash)];
    // the type moves to a cell of the key holder; a cell without type stays
    // under the shadow lock
    let outputs = vec![cell(ORIGINAL_LOCK_HASH, type_hash), cell(SHADOW_SCRIPT_HASH, None)];

    let tx = Transaction::new(SHADOW_SCRIPT_HASH, lock_args, inputs, outputs);
    assert_eq!(tx.group_inputs, vec![1]);
    // no output has both the type and the lock of the guarded cell
    assert_eq!(verify(&tx), Ok(()));
}

#[test]
fn test_shadow_lock_self_destruction_pass_verify() {
    let mode = 0b00000110;
    let lock_args = build_lock_args(mode, ORIGINAL_LOCK_HASH);
    let type_hash = Some(SHADOW_SCRIPT_HASH);

    let inputs = vec![cell(ORIGINAL_LOCK_HASH, None), cell(SHADOW_SCRIPT_HASH, type_hash)];
    let outputs = vec![cell(ORIGINAL_LOCK_HASH, None), cell(SHADOW_SCRIPT_HASH, None)];

    let tx = Transaction::new(SHADOW_SCRIPT_HASH, lock_args, inputs, outputs);
    assert_eq!(tx.group_inputs, vec![1]);
    assert_eq!(verify(&tx), Ok(()));
}

#[test]
fn test_shadow_lock_forbid_trade_verify() {
    // delegate script hash = lock.hash
    // forbid trade = true
    // self destruction = false
    let mode = 0b00000010;
    let lock_args = build_lock_args(mode, ORIGINAL_LOCK_HASH);
    let type_hash = Some(SHADOW_SCRIPT_HASH);

    let inputs = vec![cell(ORIGINAL_LOCK_HASH, None), cell(SHADOW_SCRIPT_HASH, type_hash)];
    // the type moves to a cell of the buyer
    let outputs = vec![cell(ORIGINAL_LOCK_HASH, None), cell(TRADE_LOCK_HASH, type_hash)];

    let tx = Transaction::new(SHADOW_SCRIPT_HASH, lock_args, inputs, outputs);
    assert_eq!(tx.group_inputs, vec![1]);
    // the buyer's cell has another lock than the guarded cell, so that it
    // does not carry it forward
    assert_eq!(verify(&tx), Ok(()));
}

#[test]
fn test_shadow_lock_forbid_trade_pass_verify() {
    let mode = 0b00000010;
    let lock_args = build_lock_args(mode, ORIGINAL_LOCK_HASH);
    let type_hash = Some(SHADOW_SCRIPT_HASH);

    let inputs = vec![cell(ORIGINAL_LOCK_HASH, None), cell(SHADOW_SCRIPT_HASH, type_hash)];
    let outputs = vec![cell(ORIGINAL_LOCK_HASH, None), cell(ORIGINAL_LOCK_HASH, type_hash)];

    let tx = Transaction::new(SHADOW_SCRIPT_HASH, lock_args, inputs, outputs);
    assert_eq!(tx.group_inputs, vec![1]);
    assert_eq!(verify(&tx), Ok(()));
}
