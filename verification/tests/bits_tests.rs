use dns_codec::bits::{BitError, BitReader};

#[test]
fn next_bit_works() {
    let data = vec![160, 29];
    let mut r = BitReader::from_bytes(&data);

    let mut values = vec![];
    for _ in 0..16 {
        values.push(r.next_bit().unwrap());
    }

    assert_eq!(
        values,
        vec![
            true, false, true, false, false, false, false, false, false, false, false, true,
            true, true, false, true
        ]
    );
}

#[test]
fn next_u8_works() {
    let data = vec![20, 255];
    let mut r = BitReader::from_bytes(&data);
    assert_eq!(r.next_u8(8).unwrap(), 20)
}

#[test]
fn sixteen_bits_match_one_u16_read() {
    // Reading 16 single bits gives exactly the bits of one 16-bit read.
    let data = vec![160, 29];
    let mut bit_by_bit = BitReader::from_bytes(&data);
    let mut bits = vec![];
    for _ in 0..16 {
        bits.push(bit_by_bit.next_bit().unwrap());
    }
    let mut whole = BitReader::from_bytes(&data);
    let value = whole.next_u16(16).unwrap();
    assert_eq!(value, 0xA01D);
    for (j, bit) in bits.iter().enumerate() {
        let unpacked = (value >> (15 - j)) & 1 == 1;
        assert_eq!(*bit, unpacked);
    }
}

#[test]
fn reads_cross_byte_boundaries() {
    // 4 bits, then 8 bits straddling the byte boundary: 0xA0 0x1D.
    let data = vec![0xA0, 0x1D];
    let mut r = BitReader::from_bytes(&data);
    assert_eq!(r.next_u8(4).unwrap(), 0xA);
    assert_eq!(r.next_u8(8).unwrap(), 0x01);
    assert_eq!(r.next_u8(4).unwrap(), 0xD);
}

#[test]
fn read_ending_exactly_at_buffer_end_succeeds() {
    let data = vec![0xAB];
    let mut r = BitReader::from_bytes(&data);
    assert_eq!(r.next_u8(8).unwrap(), 0xAB);
    // The next read starts past the end and fails.
    assert_eq!(r.next_bit(), Err(BitError::EndOfBytes));
}

#[test]
fn read_past_end_fails_without_moving() {
    let data = vec![1];
    let mut r = BitReader::from_bytes(&data);
    r.skip(4);
    assert_eq!(r.next_u8(8), Err(BitError::EndOfBytes));
    assert_eq!(r.get_pointer(), 4);
    // After the failure the cursor can be repositioned and reused.
    r.set_pointer(0);
    assert_eq!(r.next_u8(8).unwrap(), 1);
}

#[test]
fn more_than_sixteen_bits_is_refused() {
    let data = vec![0, 0, 0, 0];
    let mut r = BitReader::from_bytes(&data);
    assert_eq!(r.next_u16(17), Err(BitError::InvalidCountSize));
    assert_eq!(r.next_u32(32), Err(BitError::InvalidCountSize));
    assert_eq!(r.next_u128(128), Err(BitError::InvalidCountSize));
    assert_eq!(r.get_pointer(), 0);
}

#[test]
fn wide_outputs_hold_the_same_field() {
    let data = vec![0xFF, 0xFF];
    let mut r = BitReader::from_bytes(&data);
    assert_eq!(r.next_u16(16).unwrap(), 0xFFFF);
    r.set_pointer(0);
    assert_eq!(r.next_u32(16).unwrap(), 0xFFFF);
    r.set_pointer(0);
    assert_eq!(r._next_u64(16).unwrap(), 0xFFFF);
    r.set_pointer(0);
    assert_eq!(r.next_u128(16).unwrap(), 0xFFFF);
    r.set_pointer(0);
    // A u8 keeps the low 8 bits of a 16-bit read.
    assert_eq!(r.next_u8(16).unwrap(), 0xFF);
}
