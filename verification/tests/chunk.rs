use multipack::chunk::{fanout, pack_names};

#[test]
fn fanout_from_slice_decodes_counts() {
    let mut chunk = vec![0u8; 1024];
    // fan[0] = 1, fan[1] = 0x01020304, fan[255] = 7.
    chunk[3] = 1;
    chunk[4] = 1;
    chunk[5] = 2;
    chunk[6] = 3;
    chunk[7] = 4;
    chunk[1023] = 7;
    let fan = fanout::from_slice(&chunk).expect("1024 bytes decode");
    assert_eq!(fan.len(), 256);
    assert_eq!(fan[0], 1);
    assert_eq!(fan[1], 0x0102_0304);
    assert_eq!(fan[2], 0);
    assert_eq!(fan[255], 7);
}

#[test]
fn fanout_from_slice_rejects_other_sizes() {
    assert!(fanout::from_slice(&[0u8; 1023]).is_none());
    assert!(fanout::from_slice(&[0u8; 1025]).is_none());
    assert!(fanout::from_slice(&[]).is_none());
}

#[test]
fn pack_names_from_slice_splits_names() {
    let names = pack_names::from_slice(b"alpha\0beta\0", 2).expect("two ordered names");
    assert_eq!(names.len(), 2);
    assert_eq!(names[0], b"alpha".to_vec());
    assert_eq!(names[1], b"beta".to_vec());
}

#[test]
fn pack_names_from_slice_takes_no_name_for_zero_packs() {
    assert_eq!(pack_names::from_slice(b"", 0).unwrap(), Vec::<Vec<u8>>::new());
    // With zero packs nothing is scanned, whatever the chunk holds.
    assert_eq!(pack_names::from_slice(b"no terminator", 0).unwrap(), Vec::<Vec<u8>>::new());
}

#[test]
fn pack_names_from_slice_requires_strict_order() {
    let err = pack_names::from_slice(b"same\0same\0", 2).unwrap_err();
    assert!(matches!(err, pack_names::Error::NotOrderedAlphabetically));
}

#[test]
fn pack_names_from_slice_requires_terminators() {
    let err = pack_names::from_slice(b"alpha\0beta", 2).unwrap_err();
    assert!(matches!(err, pack_names::Error::MissingNullByte));
}
