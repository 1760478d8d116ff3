use rdsd2pcm::bits::reverse_bits;

#[test]
fn reverse_bits_mirrors_each_byte() {
    assert_eq!(reverse_bits(0x69), 0x96);
    assert_eq!(reverse_bits(0x01), 0x80);
    assert_eq!(reverse_bits(0x80), 0x01);
    assert_eq!(reverse_bits(0x00), 0x00);
    assert_eq!(reverse_bits(0xff), 0xff);
    assert_eq!(reverse_bits(0b1100_1010), 0b0101_0011);
}

#[test]
fn reverse_bits_twice_is_identity() {
    for b in 0..=255u8 {
        assert_eq!(reverse_bits(reverse_bits(b)), b);
        assert_eq!(reverse_bits(b), b.reverse_bits());
    }
}
