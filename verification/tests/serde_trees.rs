use ser_sled::error::{BincodeError, Error};
use ser_sled::range::RangeBound;
use ser_sled::SerSledDb;

#[test]
fn serde_insert_and_get() {
    let db = sled::Config::new().temporary(true).open().unwrap();
    let ser_db: SerSledDb = db.into();
    let mut tree = ser_db
        .open_relaxed_serde_tree("serde_insert_and_get")
        .expect("tree should open");

    let bytes = vec![2u8, 3, 5];
    assert_eq!(tree.insert(&1u64, &bytes).unwrap(), None);
    assert_eq!(tree.get::<u64, Vec<u8>>(&1u64).unwrap(), Some(bytes.clone()));
    assert_eq!(tree.insert(&1u64, &vec![9u8]).unwrap(), Some(bytes));
    assert_eq!(tree.get::<u64, Vec<u8>>(&1u64).unwrap(), Some(vec![9u8]));
}

#[test]
fn serde_wire_format_is_big_endian_varint() {
    let db = sled::Config::new().temporary(true).open().unwrap();
    let ser_db: SerSledDb = db.into();
    let mut tree = ser_db
        .open_relaxed_serde_tree("serde_wire")
        .expect("tree should open");

    tree.insert(&300u64, &vec![5u8]).unwrap();
    let entries = tree
        .range_key_bytes::<Vec<u8>>(RangeBound::Unbounded, RangeBound::Unbounded)
        .unwrap();
    // The serde bridge writes the same big-endian variable-width integers
    // as the library's own codec.
    assert_eq!(entries, vec![(vec![251u8, 1, 44], vec![5u8])]);
}

#[test]
fn serde_first_last_pop_max() {
    let db = sled::Config::new().temporary(true).open().unwrap();
    let ser_db: SerSledDb = db.into();
    let mut tree = ser_db
        .open_serde_tree::<u64, Vec<u8>>("serde_order")
        .expect("tree should open");

    tree.insert(&2u64, &vec![2u8]).unwrap();
    tree.insert(&300u64, &vec![44u8]).unwrap();
    tree.insert(&1u64, &vec![1u8]).unwrap();

    assert_eq!(tree.first().unwrap(), Some((1u64, vec![1u8])));
    assert_eq!(tree.last().unwrap(), Some((300u64, vec![44u8])));
    assert_eq!(tree.pop_max().unwrap(), Some((300u64, vec![44u8])));
    assert_eq!(tree.len(), 2);
    assert!(!tree.contains_key(&300u64).unwrap());
}

#[test]
fn serde_iter_and_range() {
    let db = sled::Config::new().temporary(true).open().unwrap();
    let ser_db: SerSledDb = db.into();
    let mut tree = ser_db
        .open_serde_tree::<u64, Vec<u8>>("serde_iter")
        .expect("tree should open");

    tree.insert(&1u64, &vec![1u8]).unwrap();
    tree.insert(&2u64, &vec![2u8]).unwrap();
    tree.insert(&3u64, &vec![3u8]).unwrap();

    let all = tree.iter().unwrap();
    assert_eq!(
        all,
        vec![(1u64, vec![1u8]), (2u64, vec![2u8]), (3u64, vec![3u8])]
    );

    let mid = tree
        .range(RangeBound::Inclusive(2u64), RangeBound::Exclusive(3u64))
        .unwrap();
    assert_eq!(mid, vec![(2u64, vec![2u8])]);

    tree.remove(&2u64).unwrap();
    assert_eq!(tree.len(), 2);
    tree.clear().unwrap();
    assert_eq!(tree.len(), 0);
    assert!(tree.iter().unwrap().is_empty());
}

#[test]
fn serde_get_or_init() {
    let db = sled::Config::new().temporary(true).open().unwrap();
    let ser_db: SerSledDb = db.into();
    let mut tree = ser_db
        .open_serde_tree::<Vec<u8>, Vec<u8>>("serde_get_or_init")
        .expect("tree should open");

    let fresh = vec![2u8, 3, 11];
    assert_eq!(
        tree.get_or_init(b"angel".to_vec(), || fresh.clone()).unwrap(),
        Some(fresh.clone())
    );
    // A second call sees the stored value and does not reinitialize.
    assert_eq!(
        tree.get_or_init(b"angel".to_vec(), || vec![9u8]).unwrap(),
        Some(fresh)
    );
}

#[test]
fn serde_decode_mismatch_is_an_error() {
    let db = sled::Config::new().temporary(true).open().unwrap();
    let ser_db: SerSledDb = db.into();

    // Write through the library's own codec, then read the same tree
    // through the serde bridge with an unfitting type: truncated bytes.
    let mut writer = ser_db
        .open_relaxed_bincode_tree("serde_mismatch")
        .expect("tree should open");
    writer.insert(&1u64, &[251u8]).unwrap();

    let reader = ser_db
        .open_relaxed_serde_tree("serde_mismatch")
        .expect("tree should open");
    let got = reader.get::<u64, u64>(&1u64);
    assert!(matches!(
        got,
        Err(Error::BincodeError(BincodeError::DecodeError(_)))
    ));
}
