use carp_ingest::cbor::{read_block_body_start, read_era_tag, read_head};

#[test]
fn head_reads_immediate_array() {
    let bytes = vec![0x82u8, 0x07];
    let h = read_head(&bytes, 0).unwrap();
    assert_eq!(h.major, 4);
    assert!(!h.indefinite);
    assert_eq!(h.value, 2);
    assert_eq!(h.next, 1);
}

#[test]
fn head_reads_one_byte_argument() {
    // unsigned integer 500 encoded as 0x19 0x01 0xf4
    let bytes = vec![0x19u8, 0x01, 0xf4];
    let h = read_head(&bytes, 0).unwrap();
    assert_eq!(h.major, 0);
    assert_eq!(h.value, 500);
    assert_eq!(h.next, 3);
}

#[test]
fn head_reads_eight_byte_argument() {
    let bytes = vec![0x1bu8, 0, 0, 0, 1, 0, 0, 0, 0];
    let h = read_head(&bytes, 0).unwrap();
    assert_eq!(h.value, 1u64 << 32);
    assert_eq!(h.next, 9);
}

#[test]
fn head_reads_indefinite_array() {
    let bytes = vec![0x9fu8];
    let h = read_head(&bytes, 0).unwrap();
    assert_eq!(h.major, 4);
    assert!(h.indefinite);
}

#[test]
fn head_rejects_reserved_info_and_truncation() {
    assert!(read_head(&vec![0x1cu8], 0).is_err());
    assert!(read_head(&vec![0x19u8, 0x01], 0).is_err());
    assert!(read_head(&Vec::new(), 0).is_err());
}

#[test]
fn era_tag_reads_explicit_network_prefix() {
    let (era, next) = read_era_tag(&vec![0x82u8, 0x07, 0x85]).unwrap();
    assert_eq!(era, 7);
    assert_eq!(next, 2);
}

#[test]
fn era_tag_rejects_wrong_shapes() {
    // wrong outer length
    assert!(read_era_tag(&vec![0x83u8, 0x07]).is_err());
    // not an array
    assert!(read_era_tag(&vec![0x07u8, 0x07]).is_err());
    // era tag not an unsigned integer
    assert!(read_era_tag(&vec![0x82u8, 0x40]).is_err());
}

#[test]
fn block_body_start_needs_five_elements() {
    let bytes = vec![0x82u8, 0x07, 0x85];
    let (_, next) = read_era_tag(&bytes).unwrap();
    assert_eq!(read_block_body_start(&bytes, next).unwrap(), 3);
    let wrong = vec![0x82u8, 0x07, 0x84];
    assert!(read_block_body_start(&wrong, 2).is_err());
}
