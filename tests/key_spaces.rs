use databend_core::keyspace::{
    deserialize_key, encode_batch, SledAsRef, key_space_range, serialize_key, txn_error_action, txn_flushes, MetaStorageError, TxnErrorAction,
};

#[test]
fn keys_carry_their_space_prefix() {
    assert_eq!(serialize_key(3, &vec![1, 2]), vec![3, 1, 2]);
    assert_eq!(serialize_key(3, &vec![]), vec![3]);
    assert_eq!(deserialize_key(3, &vec![3, 1, 2]), Ok(vec![1, 2]));
    assert_eq!(deserialize_key(4, &vec![3, 1, 2]), Err(MetaStorageError::BytesError));
    assert_eq!(deserialize_key(4, &vec![]), Err(MetaStorageError::BytesError));
}

#[test]
fn encoded_keys_keep_their_order() {
    let a = serialize_key(5, &vec![1, 9]);
    let b = serialize_key(5, &vec![2]);
    assert!(a < b);
    assert!(serialize_key(4, &vec![255, 255]) < serialize_key(5, &vec![]));
}

#[test]
fn key_space_ranges() {
    assert_eq!(key_space_range(3), (vec![3], Some(vec![4])));
    assert_eq!(key_space_range(255), (vec![255], None));
}

#[test]
fn transaction_errors() {
    assert_eq!(txn_error_action(MetaStorageError::TransactionConflict), TxnErrorAction::Conflict);
    assert_eq!(txn_error_action(MetaStorageError::SledError), TxnErrorAction::Abort(MetaStorageError::SledError));
    assert_eq!(txn_error_action(MetaStorageError::BytesError), TxnErrorAction::Abort(MetaStorageError::BytesError));
    assert!(txn_flushes(true, true));
    assert!(!txn_flushes(true, false));
    assert!(!txn_flushes(false, true));
}

#[test]
fn batches_encode_every_key() {
    let kvs = vec![(vec![1u8], vec![9u8]), (vec![2u8, 3u8], vec![])];
    assert_eq!(encode_batch(7, &kvs), vec![(vec![7, 1], vec![9]), (vec![7, 2, 3], vec![])]);
    let pair = (vec![1u8], vec![2u8]);
    assert_eq!(pair.as_key(), &vec![1u8]);
    assert_eq!(pair.as_value(), &vec![2u8]);
}
