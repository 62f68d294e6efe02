use xcvm_interpreter::encoding::decimal_bytes;
use xcvm_interpreter::error::ContractError;
use xcvm_interpreter::patch::patch;

#[test]
fn patch_without_bindings_is_identity() {
    let payload = b"{\"a\":1}".to_vec();
    assert_eq!(patch(&payload, &vec![], &vec![]), Ok(payload.clone()));
}

#[test]
fn patch_replaces_each_slot_and_keeps_the_rest() {
    let payload = b"{\"a\":\"_\",\"b\":\"_\"}".to_vec();
    let out = patch(&payload, &vec![6, 14], &vec![b"xyz".to_vec(), b"".to_vec()]).unwrap();
    assert_eq!(out, b"{\"a\":\"xyz\",\"b\":\"\"}".to_vec());
}

#[test]
fn patch_at_first_byte() {
    let out = patch(&b"_bc".to_vec(), &vec![0], &vec![b"A".to_vec()]).unwrap();
    assert_eq!(out, b"Abc".to_vec());
}

#[test]
fn patch_rejects_position_past_payload() {
    let r = patch(&b"abc".to_vec(), &vec![3], &vec![b"x".to_vec()]);
    assert_eq!(r, Err(ContractError::InvalidBindings));
}

#[test]
fn patch_rejects_position_at_last_byte() {
    let r = patch(&b"abc".to_vec(), &vec![2], &vec![b"x".to_vec()]);
    assert_eq!(r, Err(ContractError::InvalidBindings));
}

#[test]
fn patch_rejects_repeated_position() {
    let r = patch(&b"abcdef".to_vec(), &vec![2, 2], &vec![b"x".to_vec(), b"y".to_vec()]);
    assert_eq!(r, Err(ContractError::InvalidBindings));
}

#[test]
fn patch_rejects_descending_positions() {
    let r = patch(&b"abcdef".to_vec(), &vec![3, 1], &vec![b"x".to_vec(), b"y".to_vec()]);
    assert_eq!(r, Err(ContractError::InvalidBindings));
}

#[test]
fn patch_rejects_any_binding_on_empty_payload() {
    let r = patch(&vec![], &vec![0], &vec![b"x".to_vec()]);
    assert_eq!(r, Err(ContractError::InvalidBindings));
}

#[test]
fn decimal_digits() {
    assert_eq!(decimal_bytes(0), b"0".to_vec());
    assert_eq!(decimal_bytes(7), b"7".to_vec());
    assert_eq!(decimal_bytes(1234), b"1234".to_vec());
    assert_eq!(decimal_bytes(u64::MAX), u64::MAX.to_string().into_bytes());
}
