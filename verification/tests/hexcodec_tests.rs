use carp_ingest::hexcodec::decode_hex;

#[test]
fn hex_decodes_known_values() {
    assert_eq!(decode_hex("00ff10").unwrap(), vec![0x00, 0xff, 0x10]);
    assert_eq!(decode_hex("").unwrap(), Vec::<u8>::new());
    assert_eq!(decode_hex("deadBEEF").unwrap(), vec![0xde, 0xad, 0xbe, 0xef]);
}

#[test]
fn hex_matches_reference_codec() {
    let cases = ["", "0a", "8201", "ffffffff", "0123456789abcdefABCDEF01"];
    for c in cases {
        assert_eq!(decode_hex(c).unwrap(), hex::decode(c).unwrap());
    }
}

#[test]
fn hex_rejects_odd_length() {
    assert!(decode_hex("abc").is_err());
    assert!(decode_hex("0").is_err());
}

#[test]
fn hex_rejects_non_digits() {
    assert!(decode_hex("zz").is_err());
    assert!(decode_hex("0g").is_err());
    assert!(decode_hex("a£").is_err());
}
