use ser_sled::BincodeItem;

fn enc_u64(v: u64) -> Vec<u8> {
    BincodeItem(v).to_bytes()
}

fn dec_u64(bytes: &[u8]) -> Option<u64> {
    BincodeItem::<u64>::from_bytes(bytes).map(|item| item.0)
}

#[test]
fn u64_wire_format() {
    assert_eq!(enc_u64(0), vec![0u8]);
    assert_eq!(enc_u64(7), vec![7u8]);
    assert_eq!(enc_u64(250), vec![250u8]);
    assert_eq!(enc_u64(251), vec![251u8, 0, 251]);
    assert_eq!(enc_u64(300), vec![251u8, 1, 44]);
    assert_eq!(enc_u64(0xFFFF), vec![251u8, 255, 255]);
    assert_eq!(enc_u64(0x1_0000), vec![252u8, 0, 1, 0, 0]);
    assert_eq!(enc_u64(0xFFFF_FFFF), vec![252u8, 255, 255, 255, 255]);
    assert_eq!(enc_u64(0x1_0000_0000), vec![253u8, 0, 0, 0, 1, 0, 0, 0, 0]);
    assert_eq!(
        enc_u64(u64::MAX),
        vec![253u8, 255, 255, 255, 255, 255, 255, 255, 255]
    );
}

#[test]
fn bytes_wire_format() {
    assert_eq!(BincodeItem(Vec::<u8>::new()).to_bytes(), vec![0u8]);
    assert_eq!(BincodeItem(vec![9u8, 8]).to_bytes(), vec![2u8, 9, 8]);
    assert_eq!(BincodeItem([7u8]).to_bytes(), vec![7u8]);
    assert_eq!(BincodeItem([7u8, 6]).to_bytes(), vec![7u8, 6]);
}

#[test]
fn u64_round_trip() {
    for v in [
        0u64,
        1,
        249,
        250,
        251,
        300,
        0xFFFF,
        0x1_0000,
        0xFFFF_FFFF,
        0x1_0000_0000,
        0x1234_5678_9ABC_DEF0,
        u64::MAX,
    ] {
        assert_eq!(dec_u64(&enc_u64(v)), Some(v));
    }
}

#[test]
fn bytes_round_trip() {
    for v in [vec![], vec![0u8], vec![2u8, 3, 5, 7], vec![255u8; 300]] {
        let encoded = BincodeItem(v.clone()).to_bytes();
        let decoded = BincodeItem::<Vec<u8>>::from_bytes(&encoded).map(|item| item.0);
        assert_eq!(decoded, Some(v));
    }
}

#[test]
fn decode_rejects_bad_input() {
    assert_eq!(dec_u64(&[]), None);
    assert_eq!(dec_u64(&[251]), None);
    assert_eq!(dec_u64(&[251, 1]), None);
    assert_eq!(dec_u64(&[252, 1, 2, 3]), None);
    assert_eq!(dec_u64(&[253, 1, 2, 3, 4, 5, 6, 7]), None);
    assert_eq!(dec_u64(&[254]), None);
    assert_eq!(dec_u64(&[255, 0, 0]), None);
    assert!(BincodeItem::<[u8; 1]>::from_bytes(&[]).is_none());
    assert!(BincodeItem::<[u8; 2]>::from_bytes(&[1]).is_none());
    // A length prefix that promises more bytes than there are.
    assert!(BincodeItem::<Vec<u8>>::from_bytes(&[5, 1, 2]).is_none());
}

#[test]
fn decode_reads_the_front() {
    assert_eq!(dec_u64(&[7, 99]), Some(7));
    assert_eq!(dec_u64(&[251, 1, 44, 99]), Some(300));
    let decoded = BincodeItem::<Vec<u8>>::from_bytes(&[2, 9, 8, 77]).map(|item| item.0);
    assert_eq!(decoded, Some(vec![9u8, 8]));
}

#[test]
fn order_is_preserved_across_widths() {
    let samples: Vec<u64> = vec![
        0,
        1,
        3,
        250,
        251,
        300,
        0xFFFE,
        0xFFFF,
        0x1_0000,
        0xABCD_EF01,
        0xFFFF_FFFF,
        0x1_0000_0000,
        0x0100_0000_0000,
        u64::MAX - 1,
        u64::MAX,
    ];
    for (i, a) in samples.iter().enumerate() {
        for b in samples.iter().skip(i + 1) {
            assert!(
                enc_u64(*a) < enc_u64(*b),
                "encoding must order {} below {}",
                a,
                b
            );
        }
    }
}
