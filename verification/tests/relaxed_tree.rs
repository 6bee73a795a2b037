use ser_sled::range::RangeBound;
use ser_sled::SerSledDb;

#[test]
fn insert_and_get() {
    let db = sled::Config::new().temporary(true).open().unwrap();
    let ser_db: SerSledDb = db.into();
    let mut tree = ser_db
        .open_relaxed_bincode_tree("insert_and_get")
        .expect("tree should open");

    let bytes = vec![2u8, 3, 5, 7, 9, 11];
    tree.insert(b"wa", &bytes).unwrap();
    assert_eq!(tree.get::<[u8; 2], Vec<u8>>(b"wa").unwrap(), Some(bytes.clone()));

    let mut same_tree = ser_db
        .open_relaxed_bincode_tree("insert_and_get")
        .expect("tree should open");

    let other_bytes = vec![2u8, 3, 11];
    assert_eq!(same_tree.insert(b"wa", &other_bytes).unwrap(), Some(bytes));
}

#[test]
fn get_or_init() {
    let db = sled::Config::new().temporary(true).open().unwrap();
    let ser_db: SerSledDb = db.into();
    let mut tree = ser_db
        .open_relaxed_bincode_tree("get_or_init")
        .expect("tree should open");

    let other_bytes = vec![2u8, 3, 11];
    assert_eq!(
        tree.get_or_init(b"angel".to_vec(), || other_bytes.clone()).unwrap(),
        Some(other_bytes)
    );
}

#[test]
fn first_and_last() {
    let db = sled::Config::new().temporary(true).open().unwrap();
    let ser_db: SerSledDb = db.into();
    let mut tree = ser_db
        .open_relaxed_bincode_tree("first_and_last")
        .expect("tree should open");

    let bytes = vec![2u8, 3];
    let bytes_2 = vec![3u8, 3];

    tree.insert(&[1u8], &bytes).unwrap();
    tree.insert(&[2u8], &bytes_2).unwrap();

    assert_eq!(tree.first::<[u8; 1], Vec<u8>>().unwrap(), Some(([1u8], bytes)));
    assert_eq!(tree.last::<[u8; 1], Vec<u8>>().unwrap(), Some(([2u8], bytes_2)));
}

#[test]
fn iter() {
    let db = sled::Config::new().temporary(true).open().unwrap();
    let ser_db: SerSledDb = db.into();
    let mut tree = ser_db
        .open_relaxed_bincode_tree("iter")
        .expect("tree should open");

    let bytes = vec![2u8, 3];
    let bytes_2 = vec![3u8, 3];

    tree.insert(&[1u8], &bytes).unwrap();
    tree.insert(&[2u8], &bytes_2).unwrap();

    let mut iter = tree.iter::<[u8; 1], Vec<u8>>().unwrap().into_iter();
    assert_eq!(iter.next(), Some(([1u8], bytes.clone())));
    assert_eq!(iter.next(), Some(([2u8], bytes_2.clone())));
    assert_eq!(iter.next(), None);

    let mut iter = tree.iter::<[u8; 1], Vec<u8>>().unwrap().into_iter().rev();
    assert_eq!(iter.next(), Some(([2u8], bytes_2)));
    assert_eq!(iter.next(), Some(([1u8], bytes)));
    assert_eq!(iter.next(), None);
}

#[test]
fn range_key_bytes() {
    let db = sled::Config::new().temporary(true).open().unwrap();

    let ser_db: SerSledDb = db.into();
    let mut tree = ser_db
        .open_relaxed_bincode_tree("range")
        .expect("tree should open");

    let bytes = vec![2u8, 3];
    let bytes_2 = vec![3u8, 3];

    tree.insert(&[1u8], &bytes).unwrap();
    tree.insert(&[2u8], &bytes_2).unwrap();

    let mut range = tree
        .range_key_bytes::<Vec<u8>>(RangeBound::Unbounded, RangeBound::Exclusive(vec![2u8]))
        .unwrap()
        .into_iter();
    assert_eq!(range.next(), Some(([1u8].to_vec(), bytes.clone())));
    assert_eq!(range.next(), None);

    let mut range = tree
        .range_key_bytes::<Vec<u8>>(RangeBound::Inclusive(vec![1u8]), RangeBound::Unbounded)
        .unwrap()
        .into_iter();
    assert_eq!(range.next(), Some(([1u8].to_vec(), bytes)));
    assert_eq!(range.next(), Some(([2u8].to_vec(), bytes_2.clone())));
    assert_eq!(range.next(), None);

    let mut range = tree
        .range_key_bytes::<Vec<u8>>(RangeBound::Inclusive(vec![2u8]), RangeBound::Unbounded)
        .unwrap()
        .into_iter();
    assert_eq!(range.next(), Some(([2u8].to_vec(), bytes_2)));
    assert_eq!(range.next(), None);
}

#[test]
fn range() {
    let db = sled::Config::new().temporary(true).open().unwrap();
    let ser_db: SerSledDb = db.into();
    let mut tree = ser_db
        .open_relaxed_bincode_tree("range")
        .expect("tree should open");

    let bytes = vec![2u8, 3];
    let bytes_2 = vec![3u8, 3];

    tree.insert(&1u64, &bytes).unwrap();
    tree.insert(&2u64, &bytes_2).unwrap();

    let mut range = tree
        .range::<u64, Vec<u8>>(RangeBound::Unbounded, RangeBound::Exclusive(2u64))
        .expect("key should encode")
        .into_iter();
    assert_eq!(range.next(), Some((1u64, bytes.clone())));
    assert_eq!(range.next(), None);

    let mut range = tree
        .range::<u64, Vec<u8>>(RangeBound::Inclusive(1u64), RangeBound::Unbounded)
        .expect("key should encode")
        .into_iter();
    assert_eq!(range.next(), Some((1u64, bytes)));
    assert_eq!(range.next(), Some((2u64, bytes_2.clone())));
    assert_eq!(range.next(), None);

    let mut range = tree
        .range::<u64, Vec<u8>>(RangeBound::Inclusive(2u64), RangeBound::Unbounded)
        .expect("key should encode")
        .into_iter();
    assert_eq!(range.next(), Some((2u64, bytes_2)));
    assert_eq!(range.next(), None);
}

#[test]
fn is_binary_order_preserved() {
    let db = sled::Config::new().temporary(true).open().unwrap();

    let ser_db: SerSledDb = db.into();
    let mut tree = ser_db
        .open_relaxed_bincode_tree("binary_order")
        .expect("tree should open");

    tree.insert(&[1u8], &[1u8]).unwrap();
    tree.insert(&[4u8], &[4u8]).unwrap();
    tree.insert(&[3u8], &[3u8]).unwrap();
    tree.insert(&[2u8], &[2u8]).unwrap();

    let mut iter = tree.iter::<[u8; 1], [u8; 1]>().unwrap().into_iter();
    assert_eq!(iter.next(), Some(([1u8], [1u8])));
    assert_eq!(iter.next(), Some(([2u8], [2u8])));
    assert_eq!(iter.next(), Some(([3u8], [3u8])));
    assert_eq!(iter.next(), Some(([4u8], [4u8])));
    assert_eq!(iter.next(), None);
}

#[test]
fn clear() {
    let db = sled::Config::new().temporary(true).open().unwrap();
    let ser_db: SerSledDb = db.into();
    let mut tree = ser_db
        .open_relaxed_bincode_tree("clear")
        .expect("tree should open");

    tree.insert(&[1u8], &[1u8]).unwrap();

    tree.clear().unwrap();

    assert!(tree.iter::<Vec<u8>, Vec<u8>>().unwrap().into_iter().next().is_none());
}

#[test]
fn contains_key() {
    let db = sled::Config::new().temporary(true).open().unwrap();

    let ser_db: SerSledDb = db.into();
    let mut tree = ser_db
        .open_relaxed_bincode_tree("contains_key")
        .expect("tree should open");

    tree.insert(&[1u8], &[1u8]).unwrap();
    tree.insert(&[4u8], &[4u8]).unwrap();

    assert!(tree.contains_key(&[1u8]).unwrap());
    assert!(tree.contains_key(&[4u8]).unwrap());
    assert!(!tree.contains_key(&[2u8]).unwrap());
    assert!(!tree.contains_key(&[3u8]).unwrap());
}

#[test]
fn pop_max() {
    let db = sled::Config::new().temporary(true).open().unwrap();
    let ser_db: SerSledDb = db.into();
    let mut tree = ser_db
        .open_relaxed_bincode_tree("pop_max")
        .expect("tree should open");

    tree.insert(&[1u8], &[1u8]).unwrap();
    tree.insert(&[4u8], &[4u8]).unwrap();
    tree.insert(&[2u8], &[2u8]).unwrap();

    assert_eq!(tree.pop_max::<[u8; 1], [u8; 1]>().unwrap(), Some(([4u8], [4u8])));
}

#[test]
fn remove() {
    let db = sled::Config::new().temporary(true).open().unwrap();
    let ser_db: SerSledDb = db.into();
    let mut tree = ser_db
        .open_relaxed_bincode_tree("remove")
        .expect("tree should open");

    tree.insert(&[1u8], &[1u8]).unwrap();
    tree.insert(&[4u8], &[4u8]).unwrap();
    tree.insert(&[3u8], &[3u8]).unwrap();
    tree.insert(&[2u8], &[2u8]).unwrap();

    assert_eq!(tree.remove::<[u8; 1], [u8; 1]>(&[3u8]).unwrap(), Some([3u8]));

    let mut iter = tree.iter::<[u8; 1], [u8; 1]>().unwrap().into_iter();
    assert_eq!(iter.next(), Some(([1u8], [1u8])));
    assert_eq!(iter.next(), Some(([2u8], [2u8])));
    assert_eq!(iter.next(), Some(([4u8], [4u8])));
    assert_eq!(iter.next(), None);
}
