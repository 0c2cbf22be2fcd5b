use multipack::chunk::pack_names;
use multipack::hash::{HashKind, ObjectId};
use multipack::multi_index::{Error, File};

const PNAM: u32 = 0x504e_414d;
const OIDF: u32 = 0x4f49_4446;
const OIDL: u32 = 0x4f49_444c;
const OOFF: u32 = 0x4f4f_4646;
const LOFF: u32 = 0x4c4f_4646;

fn build_midx(num_packs: u32, chunks: &[(u32, Vec<u8>)]) -> Vec<u8> {
    let mut out = Vec::new();
    out.extend_from_slice(b"MIDX");
    out.push(1);
    out.push(1);
    out.push(chunks.len() as u8);
    out.push(0);
    out.extend_from_slice(&num_packs.to_be_bytes());
    let toc_len = 12 * (chunks.len() + 1);
    let mut offset = (12 + toc_len) as u64;
    for (kind, data) in chunks {
        out.extend_from_slice(&kind.to_be_bytes());
        out.extend_from_slice(&offset.to_be_bytes());
        offset += data.len() as u64;
    }
    out.extend_from_slice(&[0u8; 4]);
    out.extend_from_slice(&offset.to_be_bytes());
    for (_, data) in chunks {
        out.extend_from_slice(data);
    }
    out.extend_from_slice(&[0u8; 20]);
    out
}

fn names_chunk(names: &[&str]) -> Vec<u8> {
    let mut v = Vec::new();
    for n in names {
        v.extend_from_slice(n.as_bytes());
        v.push(0);
    }
    v
}

fn fanout_chunk(ids: &[[u8; 20]]) -> Vec<u8> {
    let mut fan = [0u32; 256];
    for id in ids {
        for b in (id[0] as usize)..256 {
            fan[b] += 1;
        }
    }
    let mut v = Vec::new();
    for f in fan.iter() {
        v.extend_from_slice(&f.to_be_bytes());
    }
    v
}

fn lookup_chunk(ids: &[[u8; 20]]) -> Vec<u8> {
    let mut v = Vec::new();
    for id in ids {
        v.extend_from_slice(id);
    }
    v
}

fn offsets_chunk(entries: &[(u32, u32)]) -> Vec<u8> {
    let mut v = Vec::new();
    for (pack, word) in entries {
        v.extend_from_slice(&pack.to_be_bytes());
        v.extend_from_slice(&word.to_be_bytes());
    }
    v
}

fn large_chunk(offsets: &[u64]) -> Vec<u8> {
    let mut v = Vec::new();
    for o in offsets {
        v.extend_from_slice(&o.to_be_bytes());
    }
    v
}

fn make_id(first: u8, last: u8) -> [u8; 20] {
    let mut a = [0u8; 20];
    a[0] = first;
    a[19] = last;
    a
}

fn oid(bytes: [u8; 20]) -> ObjectId {
    ObjectId::from_bytes(bytes.to_vec()).expect("20 bytes make an id")
}

fn small_index() -> (Vec<[u8; 20]>, Vec<(u32, u32)>, Vec<u8>) {
    // Four objects over three packs; the entry of id 0x61.. needs the
    // large-offset table because its real offset exceeds 31 bits.
    let ids = vec![
        make_id(0x05, 0x01),
        make_id(0x05, 0x02),
        make_id(0x61, 0x03),
        make_id(0xf0, 0x04),
    ];
    let entries = vec![(0, 1234), (2, 0x7fff_ffff), (1, 0x8000_0000), (2, 42)];
    let large = vec![0x1_2345_6789u64];
    let data = build_midx(
        3,
        &[
            (PNAM, names_chunk(&["pack-a.idx", "pack-b.idx", "pack-c.idx"])),
            (OIDF, fanout_chunk(&ids)),
            (OIDL, lookup_chunk(&ids)),
            (OOFF, offsets_chunk(&entries)),
            (LOFF, large_chunk(&large)),
        ],
    );
    (ids, entries, data)
}

#[test]
fn round_trip_lookup() {
    let (ids, _, data) = small_index();
    let file = File::from_bytes(data).expect("synthetic index opens");
    assert_eq!(file.num_packs(), 3);
    assert_eq!(file.num_objects(), 4);
    assert!(matches!(file.hash_kind(), HashKind::Sha1));
    let expected: Vec<(u32, u64)> = vec![(0, 1234), (2, 0x7fff_ffff), (1, 0x1_2345_6789), (2, 42)];
    for (id, want) in ids.iter().zip(expected.iter()) {
        let got = file.find(&oid(*id)).expect("no corruption");
        assert_eq!(got, Some(*want));
    }
}

#[test]
fn absent_ids_are_not_found() {
    let (_, _, data) = small_index();
    let file = File::from_bytes(data).expect("synthetic index opens");
    // One id per interesting spot: below all, between entries of one
    // bucket, in an empty bucket, above all.
    for absent in [
        make_id(0x00, 0x00),
        make_id(0x05, 0x99),
        make_id(0x40, 0x01),
        make_id(0xff, 0xff),
    ] {
        let got = file.find(&oid(absent)).expect("no corruption");
        assert_eq!(got, None);
    }
}

#[test]
fn pack_names_are_kept_in_order() {
    let (_, _, data) = small_index();
    let file = File::from_bytes(data).expect("synthetic index opens");
    assert_eq!(file.pack_name(0).unwrap().as_slice(), b"pack-a.idx");
    assert_eq!(file.pack_name(1).unwrap().as_slice(), b"pack-b.idx");
    assert_eq!(file.pack_name(2).unwrap().as_slice(), b"pack-c.idx");
    assert!(file.pack_name(3).is_none());
}

#[test]
fn zero_packs_still_open() {
    // A pack count of zero reads no name at all; the single byte of the
    // pack-names chunk is trailing garbage and is ignored.
    let ids = vec![make_id(0x05, 0x01)];
    let data = build_midx(
        0,
        &[
            (PNAM, b"\0".to_vec()),
            (OIDF, fanout_chunk(&ids)),
            (OIDL, lookup_chunk(&ids)),
            (OOFF, offsets_chunk(&[(0, 7)])),
        ],
    );
    let file = File::from_bytes(data).expect("an index over zero packs opens");
    assert_eq!(file.num_packs(), 0);
    assert!(file.pack_name(0).is_none());
}

#[test]
fn validation_accepts_a_consistent_index() {
    let (_, _, data) = small_index();
    let file = File::from_bytes(data).expect("synthetic index opens");
    assert!(file.validate_tables());
}

#[test]
fn validation_rejects_an_unsorted_lookup_table() {
    // Two ids of one bucket in the wrong order: opening still succeeds
    // (ordering is not re-checked there), the explicit pass refuses.
    let ids = vec![make_id(0x05, 0x02), make_id(0x05, 0x01)];
    let data = build_midx(
        1,
        &[
            (PNAM, names_chunk(&["pack-a.idx"])),
            (OIDF, fanout_chunk(&ids)),
            (OIDL, lookup_chunk(&ids)),
            (OOFF, offsets_chunk(&[(0, 7), (0, 8)])),
        ],
    );
    let file = File::from_bytes(data).expect("ordering is not validated at open time");
    assert!(!file.validate_tables());
    // Probing never panics even on such a file.
    let _ = file.find(&oid(make_id(0x05, 0x01)));
}

#[test]
fn validation_rejects_an_inconsistent_fanout() {
    let ids = vec![make_id(0x05, 0x01)];
    let mut fan = fanout_chunk(&ids);
    // Claim three objects in bucket 0x03 while the table holds one id.
    fan[4 * 3 + 3] = 3;
    let data = build_midx(
        1,
        &[
            (PNAM, names_chunk(&["pack-a.idx"])),
            (OIDF, fan),
            (OIDL, lookup_chunk(&ids)),
            (OOFF, offsets_chunk(&[(0, 7)])),
        ],
    );
    let file = File::from_bytes(data).expect("fanout consistency is not validated at open time");
    assert!(!file.validate_tables());
}

#[test]
fn trailing_bytes_after_last_name_are_tolerated() {
    let ids = vec![make_id(0x05, 0x01)];
    let mut names = names_chunk(&["pack-a.idx"]);
    names.extend_from_slice(b"\0\0\0garbage");
    let data = build_midx(
        1,
        &[
            (PNAM, names),
            (OIDF, fanout_chunk(&ids)),
            (OIDL, lookup_chunk(&ids)),
            (OOFF, offsets_chunk(&[(0, 7)])),
        ],
    );
    let file = File::from_bytes(data).expect("extra bytes after the names are ignored");
    assert_eq!(file.pack_name(0).unwrap().as_slice(), b"pack-a.idx");
}

#[test]
fn unordered_pack_names_are_rejected() {
    let ids = vec![make_id(0x05, 0x01)];
    let data = build_midx(
        2,
        &[
            (PNAM, names_chunk(&["b", "a"])),
            (OIDF, fanout_chunk(&ids)),
            (OIDL, lookup_chunk(&ids)),
            (OOFF, offsets_chunk(&[(0, 7)])),
        ],
    );
    let err = File::from_bytes(data).unwrap_err();
    assert!(matches!(
        err,
        Error::PackNames {
            err: pack_names::Error::NotOrderedAlphabetically
        }
    ));
}

#[test]
fn missing_name_terminator_is_rejected() {
    let ids = vec![make_id(0x05, 0x01)];
    let data = build_midx(
        2,
        &[
            (PNAM, b"pack-a.idx\0pack-b.idx".to_vec()),
            (OIDF, fanout_chunk(&ids)),
            (OIDL, lookup_chunk(&ids)),
            (OOFF, offsets_chunk(&[(0, 7)])),
        ],
    );
    let err = File::from_bytes(data).unwrap_err();
    assert!(matches!(
        err,
        Error::PackNames {
            err: pack_names::Error::MissingNullByte
        }
    ));
}

#[test]
fn wrong_fanout_size_is_rejected() {
    let ids = vec![make_id(0x05, 0x01)];
    let mut fan = fanout_chunk(&ids);
    fan.truncate(1023);
    let data = build_midx(
        1,
        &[
            (PNAM, names_chunk(&["pack-a.idx"])),
            (OIDF, fan),
            (OIDL, lookup_chunk(&ids)),
            (OOFF, offsets_chunk(&[(0, 7)])),
        ],
    );
    let err = File::from_bytes(data).unwrap_err();
    assert!(matches!(err, Error::MultiPackFanSize));
}

#[test]
fn truncated_file_is_rejected() {
    let err = File::from_bytes(b"MIDX".to_vec()).unwrap_err();
    assert!(matches!(err, Error::Corrupt { .. }));
}

#[test]
fn bad_signature_is_rejected() {
    let (_, _, mut data) = small_index();
    data[0] = b'X';
    let err = File::from_bytes(data).unwrap_err();
    assert!(matches!(err, Error::Corrupt { .. }));
}

#[test]
fn unsupported_version_is_rejected() {
    let (_, _, mut data) = small_index();
    data[4] = 2;
    let err = File::from_bytes(data).unwrap_err();
    assert!(matches!(err, Error::UnsupportedVersion { version: 2 }));
}

#[test]
fn unsupported_hash_kind_is_rejected() {
    let (_, _, mut data) = small_index();
    data[5] = 2;
    let err = File::from_bytes(data).unwrap_err();
    assert!(matches!(err, Error::UnsupportedHashKind { kind: 2 }));
}

#[test]
fn missing_lookup_chunk_is_rejected() {
    let ids = vec![make_id(0x05, 0x01)];
    let data = build_midx(
        1,
        &[
            (PNAM, names_chunk(&["pack-a.idx"])),
            (OIDF, fanout_chunk(&ids)),
            (OOFF, offsets_chunk(&[(0, 7)])),
        ],
    );
    let err = File::from_bytes(data).unwrap_err();
    assert!(matches!(err, Error::MissingChunk { id: OIDL }));
}

#[test]
fn lookup_table_size_mismatch_is_rejected() {
    let ids = vec![make_id(0x05, 0x01), make_id(0x06, 0x02)];
    let data = build_midx(
        1,
        &[
            (PNAM, names_chunk(&["pack-a.idx"])),
            (OIDF, fanout_chunk(&ids)),
            (OIDL, lookup_chunk(&ids[..1])),
            (OOFF, offsets_chunk(&[(0, 7), (0, 8)])),
        ],
    );
    let err = File::from_bytes(data).unwrap_err();
    assert!(matches!(err, Error::Corrupt { .. }));
}

#[test]
fn flagged_offset_without_large_table_is_corrupt() {
    let ids = vec![make_id(0x05, 0x01)];
    let data = build_midx(
        1,
        &[
            (PNAM, names_chunk(&["pack-a.idx"])),
            (OIDF, fanout_chunk(&ids)),
            (OIDL, lookup_chunk(&ids)),
            (OOFF, offsets_chunk(&[(0, 0x8000_0000)])),
        ],
    );
    let file = File::from_bytes(data).expect("the file itself opens");
    let err = file.find(&oid(ids[0])).unwrap_err();
    assert!(matches!(err, Error::Corrupt { .. }));
}

#[test]
fn flagged_offset_past_large_table_is_corrupt() {
    let ids = vec![make_id(0x05, 0x01)];
    let data = build_midx(
        1,
        &[
            (PNAM, names_chunk(&["pack-a.idx"])),
            (OIDF, fanout_chunk(&ids)),
            (OIDL, lookup_chunk(&ids)),
            (OOFF, offsets_chunk(&[(0, 0x8000_0001)])),
            (LOFF, large_chunk(&[0x1_0000_0000u64])),
        ],
    );
    let file = File::from_bytes(data).expect("the file itself opens");
    let err = file.find(&oid(ids[0])).unwrap_err();
    assert!(matches!(err, Error::Corrupt { .. }));
}
