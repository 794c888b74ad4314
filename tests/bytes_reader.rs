use bin_rs::reader::{BytesReader, SeekFrom};
use bin_rs::{Endian, ErrorKind};

#[test]
fn check_works() {
    let buffer: Vec<u8> = (0..255).collect();
    let mut reader = BytesReader::from(buffer);

    let endian = Endian::LittleEndian;
    let r = reader.endian();
    assert_eq!(endian, r);

    let r = reader.read_byte().unwrap();
    assert_eq!(r, 0_u8);
    let r = reader.read_u8().unwrap();
    assert_eq!(r, 1_u8);
    let r = reader.read_u16_be().unwrap();
    assert_eq!(r, 0x0203);
    let r = reader.read_u16_le().unwrap();
    assert_eq!(r, 0x0504);
    let r = reader.read_u32_be().unwrap();
    assert_eq!(r, 0x06070809);
    let r = reader.read_u32_le().unwrap();
    assert_eq!(r, 0x0d0c0b0a);
    reader.skip_ptr(2).unwrap(); // 0x0e 0x0f skip
    let r = reader.read_u64_be().unwrap();
    assert_eq!(r, 0x1011121314151617);
    let r = reader.read_u64_le().unwrap();
    assert_eq!(r, 0x1f1e1d1c1b1a1918);
    let r = reader.read_u128_be().unwrap();
    assert_eq!(r, 0x202122232425262728292a2b2c2d2e2f);
    let r = reader.read_u128_le().unwrap();
    assert_eq!(r, 0x3f3e3d3c3b3a39383736353433323130);
    let r = reader.offset().unwrap();
    assert_eq!(r, 0x40);

    let buffer: Vec<u8> = (0..32).map(|i| 255 - i).collect();
    let mut reader = BytesReader::from(buffer);
    let r = reader.read_i8().unwrap(); // 0xff
    assert_eq!(r, -1);
    let r = reader.read_i16_be().unwrap(); // 0xfefd -> fefd
    assert_eq!(r, -259);
    let r = reader.read_i16_le().unwrap(); // 0xfcfb -> fbfc
    assert_eq!(r, -1028);
    let r = reader.read_i32_be().unwrap(); // 0xfaf9f8f7
    assert_eq!(r, -84281097);
    let r = reader.read_i32_le().unwrap(); // 0xf3f4f5f6
    assert_eq!(r, -202050058);

    let r = reader.read_bytes_as_vec(2).unwrap();
    assert_eq!(r, [0xf2, 0xf1]);

    let r = reader.read_i128_le();
    if r.is_err() {
        assert!(true)
    }

    let buffer: Vec<u8> = (0..16).map(|i| 255 - i).collect();
    let mut reader = BytesReader::from(buffer);
    let r = reader.read_i64_be().unwrap();
    assert_eq!(r, -283686952306184);

    let r = reader.read_i64_le().unwrap();
    assert_eq!(r, -1084818905618843913);

    let buffer = [0x41, 0x89, 0x85, 0x1F];
    let mut reader = BytesReader::new(&buffer);
    let r = f32::from_bits(reader.read_u32_be().unwrap());
    assert_eq!(r, 17.19);

    let buffer = [0x1F, 0x85, 0x89, 0x41];
    let mut reader = BytesReader::new(&buffer);
    let r = f32::from_bits(reader.read_u32_le().unwrap());
    assert_eq!(r, 17.19);

    let buffer = [0xC0, 0x31, 0x30, 0xA3, 0xD7, 0x0A, 0x3D, 0x71];
    let mut reader = BytesReader::new(&buffer);
    let r = f64::from_bits(reader.read_u64_be().unwrap());
    assert_eq!(r, -17.19);
    let buffer = [0x71, 0x3D, 0x0A, 0xD7, 0xA3, 0x30, 0x31, 0xC0];
    let mut reader = BytesReader::new(&buffer);
    let r = f64::from_bits(reader.read_u64_le().unwrap());
    assert_eq!(r, -17.19);

    let buffer = b"Hello World!";
    let mut reader = BytesReader::new(buffer);
    let buffer1 = reader.read_bytes_no_move(4).unwrap();
    assert_eq!(buffer1, b"Hell");
    let buffer1 = reader.read_bytes_as_vec(4).unwrap();
    assert_eq!(buffer1, b"Hell");
    let buffer1 = reader.read_bytes_as_vec(4).unwrap();
    assert_eq!(buffer1, b"o Wo");

    let buffer = b"Hello World!\01234";
    let mut reader = BytesReader::new(buffer);
    let r = reader.read_ascii_string("Hello World!\01234".len()).unwrap(); // must after \0 is trim
    assert_eq!(r, "Hello World!");
    let buffer =
        b"\xE3\x81\xB8\xE3\x82\x8D\xE3\x83\xBC\xE3\x82\x8F\xE3\x83\xBC\xE3\x82\x8B\xE3\x81\xA9\01234";
    let mut reader = BytesReader::new(buffer);
    let r = reader.read_utf8_string(23).unwrap();
    assert_eq!(r, "へろーわーるど\01");

    let buffer = [0x71, 0x3D, 0x0A, 0xD7, 0xA3, 0x30, 0x31, 0xC0];
    let mut reader = BytesReader::new(&buffer);
    reader.set_endian(Endian::LittleEndian);
    let r = f64::from_bits(reader.read_u64().unwrap());
    assert_eq!(r, -17.19);

    let buffer = [0xC0, 0x31, 0x30, 0xA3, 0xD7, 0x0A, 0x3D, 0x71];
    let mut reader = BytesReader::new(&buffer);
    reader.set_endian(Endian::BigEndian);
    let r = f64::from_bits(reader.read_u64().unwrap());
    assert_eq!(r, -17.19);

    // change number of chartors -> number of bytes
    let buffer: [u8; 16] = [
        0x00, 0x31, 0x00, 0x31, 0x00, 0x32, 0x00, 0x33, 0x00, 0x34, 0x00, 0x35, 0x00, 0x36, 0x00,
        0x37,
    ];
    let mut reader = BytesReader::new(&buffer);
    reader.set_endian(Endian::BigEndian);
    let r = reader.read_utf16_string(16).unwrap();
    assert_eq!(r, "11234567");

    let buffer: [u8; 16] = [
        0x31, 0x00, 0x31, 0x00, 0x32, 0x00, 0x33, 0x00, 0x34, 0x00, 0x35, 0x00, 0x36, 0x00, 0x37,
        0x00,
    ];
    let mut reader = BytesReader::new(&buffer);
    reader.set_endian(Endian::LittleEndian);
    let r = reader.read_utf16_string(16).unwrap();
    assert_eq!(r, "11234567");

    let buffer: Vec<u8> = (0..255).collect();
    let mut reader = BytesReader::new(&buffer);
    reader.set_endian(Endian::BigEndian);
    let r = reader.read_u16().unwrap();
    assert_eq!(r, 0x0001);
    reader.set_endian(Endian::LittleEndian);
    let r = reader.read_u16().unwrap();
    assert_eq!(r, 0x0302);

    let r = reader.offset().unwrap();
    assert_eq!(r, 4);
    let r = reader.seek(SeekFrom::End(-1)).unwrap();
    assert_eq!(r, 254);
}

#[test]
fn u16_of_two_bytes_in_each_order() {
    let mut reader = BytesReader::new(&[0x02, 0x03]);
    assert_eq!(reader.read_u16_be().unwrap(), 0x0203);
    let mut reader = BytesReader::new(&[0x02, 0x03]);
    assert_eq!(reader.read_u16_le().unwrap(), 0x0302);
}

#[test]
fn f32_bits_in_each_order() {
    let mut reader = BytesReader::new(&[0x41, 0x89, 0x85, 0x1F]);
    let be = f32::from_bits(reader.read_u32_be().unwrap());
    assert!((be - 17.19).abs() < f32::EPSILON * 32.0);
    let mut reader = BytesReader::new(&[0x1F, 0x85, 0x89, 0x41]);
    let le = f32::from_bits(reader.read_u32_le().unwrap());
    assert_eq!(be, le);
}

#[test]
fn ascii_field_consumes_its_whole_width() {
    let field = b"Hello World!\0garbage";
    let mut data = field.to_vec();
    data.push(0x7f);
    let mut reader = BytesReader::from(data);
    let r = reader.read_ascii_string(field.len()).unwrap();
    assert_eq!(r, "Hello World!");
    assert_eq!(reader.offset().unwrap(), field.len() as u64);
    assert_eq!(reader.read_byte().unwrap(), 0x7f);
}

#[test]
fn ascii_field_without_terminator_is_read_whole() {
    let mut reader = BytesReader::new(b"abcd");
    assert_eq!(reader.read_ascii_string(4).unwrap(), "abcd");
}

#[test]
fn peek_then_read_gives_same_bytes() {
    let mut reader = BytesReader::new(b"0123456789");
    reader.skip_ptr(3).unwrap();
    let peeked = reader.read_bytes_no_move(5).unwrap();
    assert_eq!(reader.offset().unwrap(), 3);
    let got = reader.read_bytes_as_vec(5).unwrap();
    assert_eq!(peeked, got);
    assert_eq!(got, b"34567");
    assert_eq!(reader.offset().unwrap(), 8);
}

#[test]
fn peek_may_see_every_remaining_byte_but_no_more() {
    let mut reader = BytesReader::new(b"abc");
    assert_eq!(reader.read_bytes_no_move(3).unwrap(), b"abc");
    let e = reader.read_bytes_no_move(4).unwrap_err();
    assert_eq!(e.kind(), ErrorKind::OutOfBounds);
    assert_eq!(reader.offset().unwrap(), 0);
}

#[test]
fn short_u64_read_fails_and_keeps_cursor() {
    let mut reader = BytesReader::new(&[1, 2, 3, 4, 5, 6, 7, 8, 9]);
    reader.skip_ptr(2).unwrap();
    let e = reader.read_u64_be().unwrap_err();
    assert_eq!(e.kind(), ErrorKind::OutOfBounds);
    assert_eq!(reader.offset().unwrap(), 2);
    assert_eq!(reader.read_u32_be().unwrap(), 0x03040506);
}

#[test]
fn seek_to_last_byte_then_end_of_data() {
    let data: Vec<u8> = (10..20).collect();
    let mut reader = BytesReader::from(data);
    assert_eq!(reader.seek(SeekFrom::End(-1)).unwrap(), 9);
    assert_eq!(reader.read_byte().unwrap(), 19);
    assert_eq!(reader.offset().unwrap(), 10);
    assert_eq!(reader.read_byte().unwrap_err().kind(), ErrorKind::OutOfBounds);
}

#[test]
fn seek_outside_the_data_fails() {
    let mut reader = BytesReader::new(&[1, 2, 3, 4]);
    reader.skip_ptr(1).unwrap();
    assert_eq!(reader.seek(SeekFrom::Current(-2)).unwrap_err().kind(), ErrorKind::InvalidSeek);
    assert_eq!(reader.seek(SeekFrom::End(0)).unwrap_err().kind(), ErrorKind::InvalidSeek);
    assert_eq!(reader.seek(SeekFrom::Start(4)).unwrap_err().kind(), ErrorKind::InvalidSeek);
    assert_eq!(reader.offset().unwrap(), 1);
    assert_eq!(reader.seek(SeekFrom::Start(3)).unwrap(), 3);
    assert_eq!(reader.seek(SeekFrom::Current(-3)).unwrap(), 0);
    assert_eq!(reader.seek(SeekFrom::End(-4)).unwrap(), 0);
}

fn utf16_bytes(text: &str, big: bool) -> Vec<u8> {
    let mut out = Vec::new();
    for u in text.encode_utf16() {
        if big {
            out.extend_from_slice(&u.to_be_bytes());
        } else {
            out.extend_from_slice(&u.to_le_bytes());
        }
    }
    out
}

#[test]
fn utf16_round_trip_in_each_order() {
    let text = "へろー World! 𝄞";
    for (big, endian, other) in [
        (true, Endian::BigEndian, Endian::LittleEndian),
        (false, Endian::LittleEndian, Endian::BigEndian),
    ] {
        let bytes = utf16_bytes(text, big);
        let mut reader = BytesReader::new(&bytes);
        reader.set_endian(endian);
        assert_eq!(reader.read_utf16_string(bytes.len()).unwrap(), text);
        assert_eq!(reader.offset().unwrap(), bytes.len() as u64);

        let mut reader = BytesReader::new(&bytes);
        reader.set_endian(other);
        match reader.read_utf16_string(bytes.len()) {
            Ok(s) => assert_ne!(s, text),
            Err(e) => assert_eq!(e.kind(), ErrorKind::InvalidEncoding),
        }
    }
}

#[test]
fn utf16_stops_at_zero_unit_and_consumes_field() {
    let mut bytes = utf16_bytes("ab", false);
    bytes.extend_from_slice(&[0, 0, 0x63, 0, 0x7f]);
    let mut reader = BytesReader::new(&bytes);
    assert_eq!(reader.read_utf16le_string(8).unwrap(), "ab");
    assert_eq!(reader.offset().unwrap(), 8);
    assert_eq!(reader.read_byte().unwrap(), 0x7f);
}

#[test]
fn utf16_fixed_order_keeps_reader_order() {
    let bytes = utf16_bytes("xy", true);
    let mut reader = BytesReader::new(&bytes);
    reader.set_endian(Endian::LittleEndian);
    assert_eq!(reader.read_utf16be_string(4).unwrap(), "xy");
    assert_eq!(reader.endian(), Endian::LittleEndian);
    let bytes = utf16_bytes("xy", false);
    let mut reader = BytesReader::new(&bytes);
    reader.set_endian(Endian::BigEndian);
    assert_eq!(reader.read_utf16le_string(4).unwrap(), "xy");
    assert_eq!(reader.endian(), Endian::BigEndian);
}

#[test]
fn utf16_unpaired_surrogate_is_an_error() {
    let mut reader = BytesReader::new(&[0x00, 0xD8, 0x41, 0x00]);
    let e = reader.read_utf16le_string(4).unwrap_err();
    assert_eq!(e.kind(), ErrorKind::InvalidEncoding);
    assert_eq!(reader.offset().unwrap(), 4);
}

#[test]
fn invalid_utf8_is_an_error_not_a_replacement() {
    let mut reader = BytesReader::new(&[0x61, 0xff, 0x62]);
    assert_eq!(reader.read_utf8_string(3).unwrap_err().kind(), ErrorKind::InvalidEncoding);
    let mut reader = BytesReader::new(&[0xc3, 0x28, 0x00, 0x00]);
    assert_eq!(reader.read_ascii_string(4).unwrap_err().kind(), ErrorKind::InvalidEncoding);
    let mut reader = BytesReader::new(&[0x61, 0x62]);
    assert_eq!(reader.read_utf8_string(3).unwrap_err().kind(), ErrorKind::OutOfBounds);
    assert_eq!(reader.offset().unwrap(), 0);
}

#[test]
fn reversed_bytes_read_the_same_in_the_other_order() {
    let be: Vec<u8> = (0x80..0x90).collect();
    let le: Vec<u8> = be.iter().rev().cloned().collect();
    let mut a = BytesReader::new(&be);
    let mut b = BytesReader::new(&le);
    assert_eq!(a.read_u128_be().unwrap(), b.read_u128_le().unwrap());
    let mut a = BytesReader::new(&be);
    let mut b = BytesReader::new(&le);
    assert_eq!(a.read_i128_be().unwrap(), b.read_i128_le().unwrap());
    for n in [2usize, 4, 8] {
        let be: Vec<u8> = (0..n as u8).map(|i| 0xf0 ^ i).collect();
        let le: Vec<u8> = be.iter().rev().cloned().collect();
        let mut a = BytesReader::new(&be);
        let mut b = BytesReader::new(&le);
        match n {
            2 => {
                assert_eq!(a.read_u16_be().unwrap(), b.read_u16_le().unwrap());
                a.seek(SeekFrom::Start(0)).unwrap();
                b.seek(SeekFrom::Start(0)).unwrap();
                assert_eq!(a.read_i16_be().unwrap(), b.read_i16_le().unwrap());
            }
            4 => {
                assert_eq!(a.read_u32_be().unwrap(), b.read_u32_le().unwrap());
                a.seek(SeekFrom::Start(0)).unwrap();
                b.seek(SeekFrom::Start(0)).unwrap();
                assert_eq!(a.read_i32_be().unwrap(), b.read_i32_le().unwrap());
            }
            _ => {
                assert_eq!(a.read_u64_be().unwrap(), b.read_u64_le().unwrap());
                a.seek(SeekFrom::Start(0)).unwrap();
                b.seek(SeekFrom::Start(0)).unwrap();
                assert_eq!(a.read_i64_be().unwrap(), b.read_i64_le().unwrap());
            }
        }
    }
}

#[test]
fn default_order_reads_follow_set_endian() {
    let data = [0xff, 0xfe, 0x01, 0x02, 0x03, 0x04, 0x05, 0x06, 0x07, 0x08];
    let mut reader = BytesReader::new(&data);
    reader.set_endian(Endian::BigEndian);
    assert_eq!(reader.read_i16().unwrap(), -2);
    assert_eq!(reader.read_u32().unwrap(), 0x01020304);
    reader.set_endian(Endian::LittleEndian);
    assert_eq!(reader.read_i32().unwrap(), 0x08070605);
    let mut reader = BytesReader::new(&[0xff; 16]);
    assert_eq!(reader.read_i128().unwrap(), -1);
    let mut reader = BytesReader::new(&[0xff; 16]);
    assert_eq!(reader.read_u128().unwrap(), u128::MAX);
    let mut reader = BytesReader::new(&[0x80, 0, 0, 0, 0, 0, 0, 0]);
    assert_eq!(reader.read_i64().unwrap(), 0x80);
    let mut reader = BytesReader::new(&[0x80, 0, 0, 0, 0, 0, 0, 0]);
    reader.set_endian(Endian::BigEndian);
    assert_eq!(reader.read_i64().unwrap(), i64::MIN);
    assert_eq!(reader.read_u64().unwrap_err().kind(), ErrorKind::OutOfBounds);
}

#[test]
fn read_exact_fills_or_leaves_everything() {
    let mut reader = BytesReader::new(&[9, 8, 7]);
    let mut two = [0u8; 2];
    reader.read_exact(&mut two).unwrap();
    assert_eq!(two, [9, 8]);
    let mut four = [1u8; 4];
    assert_eq!(reader.read_exact(&mut four).unwrap_err().kind(), ErrorKind::OutOfBounds);
    assert_eq!(four, [1, 1, 1, 1]);
    assert_eq!(reader.offset().unwrap(), 2);
}

#[test]
fn skip_reports_its_size_and_checks_bounds() {
    let mut reader = BytesReader::new(&[0; 5]);
    assert_eq!(reader.skip_ptr(5).unwrap(), 5);
    assert_eq!(reader.skip_ptr(1).unwrap_err().kind(), ErrorKind::OutOfBounds);
    assert_eq!(reader.skip_ptr(0).unwrap(), 0);
}

#[test]
fn clone_is_independent_and_at_same_place() {
    let mut reader = BytesReader::from_vec(vec![1, 2, 3]);
    reader.set_endian(Endian::BigEndian);
    reader.read_byte().unwrap();
    let mut copy = reader.clone();
    assert_eq!(copy.read_byte().unwrap(), 2);
    assert_eq!(reader.offset().unwrap(), 1);
    assert_eq!(copy.endian(), Endian::BigEndian);
}

#[test]
fn empty_buffer_reads_nothing() {
    let mut reader = BytesReader::new(&[]);
    assert_eq!(reader.read_byte().unwrap_err().kind(), ErrorKind::OutOfBounds);
    assert_eq!(reader.seek(SeekFrom::Start(0)).unwrap_err().kind(), ErrorKind::InvalidSeek);
    assert_eq!(reader.read_bytes_as_vec(0).unwrap(), Vec::<u8>::new());
    assert_eq!(reader.read_ascii_string(0).unwrap(), "");
    assert_eq!(reader.read_utf16_string(0).unwrap(), "");
    assert_eq!(reader.offset().unwrap(), 0);
}
