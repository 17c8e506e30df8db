use source_demo_tool::bitbuf::BitBuf;

#[test]
fn reads_low_bits_first() {
    let mut b = BitBuf::new(vec![0b1010_1101, 0xff, 0x00, 0x12]);
    assert_eq!(b.read_ubit_long(3), 0b101);
    assert_eq!(b.read_ubit_long(5), 0b10101);
    assert_eq!(b.read_ubit_long(8), 0xff);
    assert_eq!(b.read_ubit_long(16), 0x1200);
    assert_eq!(b.get_bits_read(), 32);
}

#[test]
fn reads_across_words() {
    let mut b = BitBuf::new(vec![0x01, 0x02, 0x03, 0x04, 0x05, 0x06]);
    assert_eq!(b.read_ubit_long(4), 0x1);
    assert_eq!(b.read_ubit_long(32), 0x5040_3020);
    assert_eq!(b.read_ubit_long(12), 0x060);
}

#[test]
fn one_bit_reads_count_twice() {
    let mut b = BitBuf::new(vec![0b0000_0010, 0, 0, 0]);
    assert!(!b.read_one_bit());
    assert!(b.read_one_bit());
    assert_eq!(b.get_bits_read(), 4);
    assert_eq!(b.read_ubit_long(6), 0);
    assert_eq!(b.get_bits_read(), 10);
}

#[test]
fn ubit_var_small() {
    // prefix 0b001010: selector 0, value 10
    let mut b = BitBuf::new(vec![0b0000_1010, 0, 0, 0]);
    assert_eq!(b.read_ubit_var(), 10);
    assert_eq!(b.get_bits_read(), 6);
}

#[test]
fn ubit_var_with_four_more_bits() {
    // prefix 0b01_0011 (selector 1, low bits 3), then 4 bits 0b0101
    let bits: u32 = 0b0101_010011;
    let mut b = BitBuf::new(bits.to_le_bytes().to_vec());
    assert_eq!(b.read_ubit_var(), 3 | (0b0101 << 4));
    assert_eq!(b.get_bits_read(), 10);
}

#[test]
fn ubit_var_with_eight_and_twenty_eight_more_bits() {
    let bits: u32 = (0xab << 6) | 0b10_0001;
    let mut b = BitBuf::new(bits.to_le_bytes().to_vec());
    assert_eq!(b.read_ubit_var(), 1 | (0xab << 4));
    let bits: u64 = (0x0abc_def1u64 << 6) | 0b11_0111;
    let mut b = BitBuf::new(bits.to_le_bytes().to_vec());
    assert_eq!(b.read_ubit_var(), 7 | (0x0abc_def1 << 4));
    assert_eq!(b.get_bits_read(), 34);
}

#[test]
fn short_last_word() {
    let mut b = BitBuf::new(vec![0, 0, 0, 0, 0xaa]);
    assert_eq!(b.read_ubit_long(31), 0);
    assert_eq!(b.read_ubit_long(9), 0xaa << 1);
}
