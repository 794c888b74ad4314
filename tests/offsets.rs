use bin_rs::io;
use bin_rs::Endian;

#[test]
fn reads_at_offsets() {
    let buf: Vec<u8> = (0..32).collect();
    assert_eq!(io::read_byte(&buf, 5), 5);
    assert_eq!(io::read_u16_be(&buf, 2), 0x0203);
    assert_eq!(io::read_u16_le(&buf, 2), 0x0302);
    assert_eq!(io::read_u32_be(&buf, 4), 0x04050607);
    assert_eq!(io::read_u32_le(&buf, 4), 0x07060504);
    assert_eq!(io::read_u64_be(&buf, 8), 0x08090a0b0c0d0e0f);
    assert_eq!(io::read_u64_le(&buf, 8), 0x0f0e0d0c0b0a0908);
    assert_eq!(io::read_u128_be(&buf, 16), 0x101112131415161718191a1b1c1d1e1f);
    assert_eq!(io::read_u128_le(&buf, 16), 0x1f1e1d1c1b1a19181716151413121110);
    assert_eq!(io::read_u16(&buf, 0, Endian::BigEndian), 0x0001);
    assert_eq!(io::read_u16(&buf, 0, Endian::LittleEndian), 0x0100);
    assert_eq!(io::read_u32(&buf, 0, Endian::BigEndian), 0x00010203);
    assert_eq!(io::read_u64(&buf, 0, Endian::LittleEndian), 0x0706050403020100);
    assert_eq!(io::read_u128(&buf, 0, Endian::BigEndian), 0x000102030405060708090a0b0c0d0e0f);
}

#[test]
fn signed_reads_at_offsets() {
    let buf: Vec<u8> = (0..32).map(|i| 255 - i).collect();
    assert_eq!(io::read_i8(&buf, 0), -1);
    assert_eq!(io::read_i16_be(&buf, 1), -259);
    assert_eq!(io::read_i16_le(&buf, 3), -1028);
    assert_eq!(io::read_i32_be(&buf, 5), -84281097);
    assert_eq!(io::read_i32_le(&buf, 9), -202050058);
    assert_eq!(io::read_i64_be(&buf, 0), -283686952306184);
    assert_eq!(io::read_i64_le(&buf, 8), -1084818905618843913);
    assert_eq!(io::read_i16(&buf, 1, Endian::BigEndian), -259);
    assert_eq!(io::read_i32(&buf, 9, Endian::LittleEndian), -202050058);
    assert_eq!(io::read_i64(&buf, 0, Endian::BigEndian), -283686952306184);
    assert_eq!(io::read_i128_be(&[0xff; 16], 0), -1);
    assert_eq!(io::read_i128_le(&buf, 0), i128::from_le_bytes(buf[0..16].try_into().unwrap()));
    assert_eq!(io::read_i128(&buf, 16, Endian::BigEndian), i128::from_be_bytes(buf[16..32].try_into().unwrap()));
}

#[test]
fn writes_then_reads_back() {
    let mut buf = Vec::new();
    io::write_byte(0xab, &mut buf);
    io::write_i8(-2, &mut buf);
    io::write_u16_be(0x0102, &mut buf);
    io::write_u16_le(0x0102, &mut buf);
    io::write_i16_be(-259, &mut buf);
    io::write_i16_le(-1028, &mut buf);
    assert_eq!(buf, [0xab, 0xfe, 0x01, 0x02, 0x02, 0x01, 0xfe, 0xfd, 0xfc, 0xfb]);

    let mut buf = Vec::new();
    io::write_u32_be(0x01020304, &mut buf);
    io::write_u32_le(0x01020304, &mut buf);
    io::write_i32_be(-2, &mut buf);
    io::write_i32_le(-2, &mut buf);
    assert_eq!(buf, [1, 2, 3, 4, 4, 3, 2, 1, 0xff, 0xff, 0xff, 0xfe, 0xfe, 0xff, 0xff, 0xff]);

    let mut buf = Vec::new();
    io::write_u64_be(0x0102030405060708, &mut buf);
    io::write_u64_le(0x0102030405060708, &mut buf);
    io::write_i64_be(i64::MIN, &mut buf);
    io::write_i64_le(-3, &mut buf);
    assert_eq!(io::read_u64_be(&buf, 0), 0x0102030405060708);
    assert_eq!(io::read_u64_le(&buf, 8), 0x0102030405060708);
    assert_eq!(&buf[0..8], &[1, 2, 3, 4, 5, 6, 7, 8]);
    assert_eq!(io::read_i64_be(&buf, 16), i64::MIN);
    assert_eq!(io::read_i64_le(&buf, 24), -3);

    let mut buf = Vec::new();
    io::write_u128_be(0x0102030405060708090a0b0c0d0e0f10, &mut buf);
    io::write_u128_le(7, &mut buf);
    io::write_i128_be(-1, &mut buf);
    io::write_i128_le(i128::MIN, &mut buf);
    assert_eq!(buf[0], 1);
    assert_eq!(buf[15], 0x10);
    assert_eq!(buf[16], 7);
    assert_eq!(io::read_u128_be(&buf, 0), 0x0102030405060708090a0b0c0d0e0f10);
    assert_eq!(io::read_u128_le(&buf, 16), 7);
    assert_eq!(io::read_i128_be(&buf, 32), -1);
    assert_eq!(io::read_i128_le(&buf, 48), i128::MIN);
}

#[test]
fn writes_in_a_chosen_order() {
    let mut buf = Vec::new();
    io::write_u16(0x0102, &mut buf, Endian::BigEndian);
    io::write_u16(0x0102, &mut buf, Endian::LittleEndian);
    io::write_i16(-2, &mut buf, Endian::BigEndian);
    assert_eq!(buf, [1, 2, 2, 1, 0xff, 0xfe]);
    let mut buf = Vec::new();
    io::write_u32(0x01020304, &mut buf, Endian::LittleEndian);
    io::write_i32(-2, &mut buf, Endian::LittleEndian);
    io::write_u64(1, &mut buf, Endian::BigEndian);
    io::write_i64(-1, &mut buf, Endian::BigEndian);
    io::write_u128(2, &mut buf, Endian::LittleEndian);
    io::write_i128(-2, &mut buf, Endian::BigEndian);
    assert_eq!(&buf[0..8], &[4, 3, 2, 1, 0xfe, 0xff, 0xff, 0xff]);
    assert_eq!(io::read_u64_be(&buf, 8), 1);
    assert_eq!(io::read_i64_be(&buf, 16), -1);
    assert_eq!(io::read_u128_le(&buf, 24), 2);
    assert_eq!(io::read_i128_be(&buf, 40), -2);
}

#[test]
fn strings_written_and_read() {
    let mut buf = Vec::new();
    io::write_ascii_string("Hi".to_string(), &mut buf);
    io::write_string("é!".to_string(), &mut buf);
    io::write_bytes(&[7, 8], &mut buf);
    assert_eq!(buf, [0x48, 0x69, 0, 0xc3, 0xa9, 0x21, 7, 8]);
    assert_eq!(io::read_string(&buf, 0, 8), "Hi");
    assert_eq!(io::read_string(&buf, 3, 3), "é!");
    assert_eq!(io::read_string(&buf, 4, 2), "");
    assert_eq!(io::read_bytes_as_vec(&buf, 6, 2), vec![7, 8]);
    assert_eq!(io::read_bytes_as_u16_vec(&buf, 3, 5), vec![0xc3, 0xa9, 0x21, 7]);
}

#[test]
fn latin1_field_reads_each_byte_as_a_character() {
    let buf = [0x78, 0xa9, 0x32, 0x30, 0x00, 0x41];
    assert_eq!(io::read_ascii_string(&buf, 1, 3), "©20");
    assert_eq!(io::read_ascii_string(&buf, 3, 3), "0\u{0}A");
}

#[test]
fn utf16_field_at_offset_is_lossy() {
    let buf = [0xff, 0x00, 0x61, 0xd8, 0x3d, 0xdd, 0x1e, 0x00, 0x00, 0x00, 0x62];
    assert_eq!(io::read_utf16_string(&buf, 1, 10, Endian::BigEndian), "a\u{1f51e}");
    let buf = [0x61, 0x00, 0x00, 0xd8, 0x62, 0x00];
    assert_eq!(io::read_utf16_string(&buf, 0, 6, Endian::LittleEndian), "a\u{fffd}b");
}
