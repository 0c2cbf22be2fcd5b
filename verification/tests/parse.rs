use multipack::parse::{hex_hash, newline};

#[test]
fn hex_hash_takes_forty_digits() {
    let input = b"45c160c35c17ad264b96431cceb9793160396e99 rest";
    let (rest, hex) = hex_hash(input).expect("a full-width id leads the input");
    assert_eq!(hex, b"45c160c35c17ad264b96431cceb9793160396e99");
    assert_eq!(rest, b" rest");
}

#[test]
fn hex_hash_leaves_extra_digits_in_the_rest() {
    let input = b"45c160c35c17ad264b96431cceb9793160396e99abc";
    let (rest, hex) = hex_hash(input).expect("the first forty digits match");
    assert_eq!(hex.len(), 40);
    assert_eq!(rest, b"abc");
}

#[test]
fn hex_hash_rejects_short_input() {
    assert!(hex_hash(b"45c160c35c17ad264b9643").is_none());
}

#[test]
fn hex_hash_rejects_uppercase() {
    let input = b"45C160C35C17AD264B96431CCEB9793160396E99";
    assert!(hex_hash(input).is_none());
}

#[test]
fn newline_prefers_the_two_byte_form() {
    let (rest, nl) = newline(b"\r\nx").expect("carriage return + line feed matches");
    assert_eq!(nl, b"\r\n");
    assert_eq!(rest, b"x");
}

#[test]
fn newline_takes_a_lone_line_feed() {
    let (rest, nl) = newline(b"\ny").expect("a lone line feed matches");
    assert_eq!(nl, b"\n");
    assert_eq!(rest, b"y");
}

#[test]
fn newline_rejects_other_input() {
    assert!(newline(b"\rx").is_none());
    assert!(newline(b"").is_none());
    assert!(newline(b"abc").is_none());
}
