use databend_core::keyspace::MetaStorageError;
use databend_core::sled_tree::SledTree;

fn open(sync: bool) -> SledTree {
    let db = sled::Config::new().temporary(true).open().unwrap();
    let tree = db.open_tree("test-tree").unwrap();
    SledTree::new("test-tree".to_string(), sync, tree)
}

#[test]
fn txn_applies_all_writes_in_order() {
    let mut st = open(true);
    let writes = vec![(vec![1u8], Some(vec![10u8])), (vec![2u8], Some(vec![20u8])), (vec![1u8], None)];
    assert_eq!(st.txn(true, Ok(writes)), Ok(true));
    assert_eq!(st.get(&vec![1]), Ok(None));
    assert_eq!(st.get(&vec![2]), Ok(Some(vec![20])));
    assert_eq!(st.txn(false, Ok(vec![(vec![3u8], Some(vec![30u8]))])), Ok(false));
    assert_eq!(st.get(&vec![3]), Ok(Some(vec![30])));
}

#[test]
fn txn_flushes_only_when_tree_syncs() {
    let mut st = open(false);
    assert_eq!(st.txn(true, Ok(vec![(vec![1u8], Some(vec![1u8]))])), Ok(false));
}

#[test]
fn failed_body_writes_nothing() {
    let mut st = open(true);
    st.txn(true, Ok(vec![(vec![1u8], Some(vec![10u8]))])).unwrap();
    assert_eq!(st.txn(true, Err(MetaStorageError::TransactionConflict)), Err(MetaStorageError::TransactionConflict));
    assert_eq!(st.txn(true, Err(MetaStorageError::BytesError)), Err(MetaStorageError::BytesError));
    assert_eq!(st.get(&vec![1]), Ok(Some(vec![10])));
}

#[test]
fn update_and_fetch_counts_up() {
    let mut st = open(true);
    let next = |v: Option<Vec<u8>>| Some(match v {
        None => vec![1u8],
        Some(x) => vec![x[0] + 1],
    });
    assert_eq!(st.update_and_fetch(&vec![9], next), Ok(Some(vec![1])));
    assert_eq!(st.update_and_fetch(&vec![9], next), Ok(Some(vec![2])));
    assert_eq!(st.get(&vec![9]), Ok(Some(vec![2])));
    assert_eq!(st.update_and_fetch(&vec![9], |_v| None), Ok(None));
    assert_eq!(st.get(&vec![9]), Ok(None));
}
