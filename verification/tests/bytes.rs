use multipack::bytes::{lex_compare, read_be_u32, read_be_u64, ByteCmp};

#[test]
fn big_endian_reads() {
    let d = [0x01u8, 0x02, 0x03, 0x04, 0x05, 0x06, 0x07, 0x08, 0x09];
    assert_eq!(read_be_u32(&d, 0), 0x0102_0304);
    assert_eq!(read_be_u32(&d, 1), 0x0203_0405);
    assert_eq!(read_be_u64(&d, 1), 0x0203_0405_0607_0809);
}

#[test]
fn lexicographic_comparison() {
    assert!(matches!(lex_compare(b"a", b"b"), ByteCmp::Less));
    assert!(matches!(lex_compare(b"b", b"a"), ByteCmp::Greater));
    assert!(matches!(lex_compare(b"ab", b"ab"), ByteCmp::Equal));
    assert!(matches!(lex_compare(b"ab", b"abc"), ByteCmp::Less));
    assert!(matches!(lex_compare(b"abc", b"ab"), ByteCmp::Greater));
    assert!(matches!(lex_compare(b"", b""), ByteCmp::Equal));
    assert!(matches!(lex_compare(b"", b"a"), ByteCmp::Less));
}
