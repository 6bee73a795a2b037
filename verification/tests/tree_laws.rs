use ser_sled::error::{BincodeError, Error};
use ser_sled::SerSledDb;

#[test]
fn insert_get_until_removed() {
    let db = sled::Config::new().temporary(true).open().unwrap();
    let ser_db: SerSledDb = db.into();
    let mut tree = ser_db
        .open_bincode_tree::<u64, Vec<u8>>("insert_get_until_removed")
        .expect("tree should open");

    tree.insert(&5u64, &vec![1u8]).unwrap();
    tree.insert(&6u64, &vec![2u8]).unwrap();
    assert_eq!(tree.get(&5u64).unwrap(), Some(vec![1u8]));

    // Writes under other keys leave the answer standing...
    tree.insert(&7u64, &vec![3u8]).unwrap();
    tree.remove(&6u64).unwrap();
    assert_eq!(tree.get(&5u64).unwrap(), Some(vec![1u8]));

    // ...until the key itself is removed.
    assert_eq!(tree.remove(&5u64).unwrap(), Some(vec![1u8]));
    assert_eq!(tree.get(&5u64).unwrap(), None);
}

#[test]
fn overwrite_returns_old_and_serves_new() {
    let db = sled::Config::new().temporary(true).open().unwrap();
    let ser_db: SerSledDb = db.into();
    let mut tree = ser_db
        .open_bincode_tree::<u64, Vec<u8>>("overwrite")
        .expect("tree should open");

    assert_eq!(tree.insert(&9u64, &vec![1u8]).unwrap(), None);
    assert_eq!(tree.insert(&9u64, &vec![2u8]).unwrap(), Some(vec![1u8]));
    assert_eq!(tree.get(&9u64).unwrap(), Some(vec![2u8]));
}

#[test]
fn pop_max_shrinks_and_forgets() {
    let db = sled::Config::new().temporary(true).open().unwrap();
    let ser_db: SerSledDb = db.into();
    let mut tree = ser_db
        .open_bincode_tree::<u64, u64>("pop_max_effect")
        .expect("tree should open");

    tree.insert(&1u64, &1u64).unwrap();
    tree.insert(&2u64, &2u64).unwrap();
    tree.insert(&4u64, &4u64).unwrap();

    let before = tree.len();
    assert_eq!(tree.pop_max().unwrap(), Some((4u64, 4u64)));
    assert_eq!(tree.len(), before - 1);
    assert!(!tree.contains_key(&4u64).unwrap());
}

#[test]
fn idempotent_clear() {
    let db = sled::Config::new().temporary(true).open().unwrap();
    let ser_db: SerSledDb = db.into();
    let mut tree = ser_db
        .open_bincode_tree::<u64, u64>("idempotent_clear")
        .expect("tree should open");

    tree.insert(&1u64, &1u64).unwrap();
    tree.insert(&2u64, &2u64).unwrap();

    tree.clear().unwrap();
    assert!(tree.iter().unwrap().into_iter().next().is_none());
    assert_eq!(tree.len(), 0);

    // Clearing again changes nothing.
    tree.clear().unwrap();
    assert!(tree.iter().unwrap().into_iter().next().is_none());
    assert_eq!(tree.len(), 0);
}

#[test]
fn iteration_skips_undecodable_entries() {
    let db = sled::Config::new().temporary(true).open().unwrap();
    let ser_db: SerSledDb = db.into();
    let mut tree = ser_db
        .open_relaxed_bincode_tree("decode_skip")
        .expect("tree should open");

    // One entry keyed and valued for `u64`...
    tree.insert(&1u64, &7u64).unwrap();
    // ...one whose key bytes are no `u64` encoding...
    tree.insert(&[254u8], &9u64).unwrap();
    // ...and one whose value bytes are no `u64` encoding.
    tree.insert(&2u64, &[254u8]).unwrap();

    // Iterating for `u64` pairs yields only the one fitting entry, with no
    // error for the other two.
    let got = tree.iter::<u64, u64>().unwrap();
    assert_eq!(got, vec![(1u64, 7u64)]);
}

#[test]
fn single_item_reads_surface_mismatches() {
    let db = sled::Config::new().temporary(true).open().unwrap();
    let ser_db: SerSledDb = db.into();
    let mut tree = ser_db
        .open_relaxed_bincode_tree("mismatch_error")
        .expect("tree should open");

    tree.insert(&[254u8], &[251u8]).unwrap();

    // `first` asks for one typed item, so the key that does not decode as
    // `u64` is an error, not a skip.
    let got = tree.first::<u64, [u8; 1]>();
    assert!(matches!(
        got,
        Err(Error::BincodeError(BincodeError::DecodeError(_)))
    ));

    // `get` with a value type the bytes do not fit is an error too.
    let got = tree.get::<[u8; 1], u64>(&[254u8]);
    assert!(matches!(
        got,
        Err(Error::BincodeError(BincodeError::DecodeError(_)))
    ));
}
