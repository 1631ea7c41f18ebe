use wiki_stats::base64::encode;

#[test]
fn no_padding() {
    let result = encode("abc".as_bytes());
    assert_eq!(result, "YWJj");
}

#[test]
fn half_padding() {
    let result = encode("68".as_bytes());
    assert_eq!(result, "Njg=");
}

#[test]
fn full_padding() {
    let result = encode("A".as_bytes());
    assert_eq!(result, "QQ==");
}

#[test]
fn null_input() {
    let result = encode("".as_bytes());
    assert_eq!(result, "");
}

#[test]
fn not_ascii() {
    let result = encode("".as_bytes());
    assert_ne!(result.len(), 4);
}

#[test]
fn hello_takes_one_pad() {
    assert_eq!(encode("hello".as_bytes()), "aGVsbG8=");
}

#[test]
fn every_symbol_of_the_alphabet() {
    let bytes: Vec<u8> = vec![
        0x00, 0x10, 0x83, 0x10, 0x51, 0x87, 0x20, 0x92, 0x8b, 0x30, 0xd3, 0x8f, 0x41, 0x14, 0x93,
        0x51, 0x55, 0x97, 0x61, 0x96, 0x9b, 0x71, 0xd7, 0x9f, 0x82, 0x18, 0xa3, 0x92, 0x59, 0xa7,
        0xa2, 0x9a, 0xab, 0xb2, 0xdb, 0xaf, 0xc3, 0x1c, 0xb3, 0xd3, 0x5d, 0xb7, 0xe3, 0x9e, 0xbb,
        0xf3, 0xdf, 0xbf,
    ];
    assert_eq!(
        encode(&bytes),
        "ABCDEFGHIJKLMNOPQRSTUVWXYZabcdefghijklmnopqrstuvwxyz0123456789+/"
    );
}

#[test]
fn bytes_beyond_ascii() {
    assert_eq!(encode(&[0xff, 0xfe, 0xfd]), "//79");
    assert_eq!(encode(&[0xff]), "/w==");
    assert_eq!(encode(&[0xff, 0xff]), "//8=");
}

#[test]
fn length_is_a_multiple_of_four() {
    let mut input: Vec<u8> = Vec::new();
    for n in 0..20usize {
        assert_eq!(encode(&input).len(), 4 * ((n + 2) / 3));
        input.push(n as u8);
    }
}
