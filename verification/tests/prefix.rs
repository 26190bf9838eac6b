use wire::ip::{lex_less, mask_prefix_len, same_bytes};

#[test]
fn test_prefix_len_all_zero() {
    assert_eq!(mask_prefix_len(&[0, 0, 0, 0]), Some(0));
    assert_eq!(mask_prefix_len(&[0]), Some(0));
    assert_eq!(mask_prefix_len(&[0; 16]), Some(0));
}

#[test]
fn test_prefix_len_all_ones() {
    assert_eq!(mask_prefix_len(&[0xff]), Some(8));
    assert_eq!(mask_prefix_len(&[0xff; 4]), Some(32));
    assert_eq!(mask_prefix_len(&[0xff; 16]), Some(128));
    assert_eq!(mask_prefix_len(&[0xff; 31]), Some(248));
}

#[test]
fn test_prefix_len_empty() {
    assert_eq!(mask_prefix_len(&[]), Some(0));
}

#[test]
fn test_prefix_len_one_after_zero() {
    assert_eq!(mask_prefix_len(&[0b11110000, 0b00000001]), None);
    assert_eq!(mask_prefix_len(&[0b11111111, 0b00000000]), Some(8));
    assert_eq!(mask_prefix_len(&[0b01000000]), None);
    assert_eq!(mask_prefix_len(&[0b10100000]), None);
    assert_eq!(mask_prefix_len(&[0b11111110, 0b10000000]), None);
    assert_eq!(mask_prefix_len(&[0, 0, 0, 0b00000001]), None);
}

#[test]
fn test_prefix_len_every_length_of_two_bytes() {
    for n in 0..=16u32 {
        let mask: u16 = if n == 0 { 0 } else { (!0u16) << (16 - n) };
        let bytes = mask.to_be_bytes();
        assert_eq!(mask_prefix_len(&bytes), Some(n as u8));
    }
}

#[test]
fn test_prefix_len_agrees_with_bit_scan() {
    for v in 0..=u16::MAX {
        let bytes = v.to_be_bytes();
        let ones = v.leading_ones();
        let want = if v.count_ones() == ones { Some(ones as u8) } else { None };
        assert_eq!(mask_prefix_len(&bytes), want);
    }
}

#[test]
fn test_lex_less() {
    assert!(lex_less(&[10, 0, 0, 1], &[10, 0, 0, 2]));
    assert!(!lex_less(&[10, 0, 0, 2], &[10, 0, 0, 1]));
    assert!(!lex_less(&[10, 0, 0, 1], &[10, 0, 0, 1]));
    assert!(lex_less(&[1, 255], &[2, 0]));
    assert!(!lex_less(&[2, 0], &[1, 255]));
    assert!(!lex_less(&[], &[]));
}

#[test]
fn test_same_bytes() {
    assert!(same_bytes(&[1, 2, 3], &[1, 2, 3]));
    assert!(!same_bytes(&[1, 2, 3], &[1, 2, 4]));
    assert!(!same_bytes(&[0, 2, 3], &[1, 2, 3]));
    assert!(same_bytes(&[], &[]));
}
