//! Bit extraction tests: MSB-first order, multi-bit reads, the consumed
//! counter, and truncation.

use jp2k::bit_reader::BitReader;

#[test]
fn bits_come_out_msb_first() {
    let mut br = BitReader::new(vec![0b1010_0000]).unwrap();
    assert_eq!(br.next_bit().unwrap(), true);
    assert_eq!(br.next_bit().unwrap(), false);
    assert_eq!(br.next_bit().unwrap(), true);
    assert_eq!(br.next_bit().unwrap(), false);
    assert_eq!(br.bits_read(), 4);
}

#[test]
fn take_collects_bits_into_a_value() {
    let mut br = BitReader::new(vec![0b1011_0110]).unwrap();
    assert_eq!(br.take(3).unwrap(), 0b101);
    assert_eq!(br.take(5).unwrap(), 0b10110);
    assert_eq!(br.bits_read(), 8);
}

#[test]
fn reads_cross_byte_boundaries() {
    let mut br = BitReader::new(vec![0b0000_0001, 0b1000_0000]).unwrap();
    assert_eq!(br.take(4).unwrap(), 0);
    assert_eq!(br.take(5).unwrap(), 0b00011);
    assert_eq!(br.bits_read(), 9);
}

#[test]
fn empty_input_is_rejected() {
    assert!(BitReader::new(vec![]).is_err());
}

#[test]
fn exhausted_input_fails_with_truncation() {
    let mut br = BitReader::new(vec![0xFF]).unwrap();
    assert_eq!(br.take(8).unwrap(), 0xFF);
    assert!(br.next_bit().is_err());
    assert!(br.take(1).is_err());
}

#[test]
fn take32_collects_wide_fields() {
    let mut br = BitReader::new(vec![0xAB, 0xCD, 0xEF, 0x12, 0x80]).unwrap();
    assert_eq!(br.take32(32).unwrap(), 0xABCD_EF12);
    assert_eq!(br.take32(1).unwrap(), 1);
    assert_eq!(br.bits_read(), 33);
    assert!(br.take32(8).is_err());
}
