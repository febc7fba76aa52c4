use fat12::codec::{
    append_bytes, append_u16, append_u32, read_bytes, read_u16, read_u32, read_u8, write_bytes,
    write_u16, write_u32, write_u8,
};
use fat12::error::FatError;

#[test]
fn read_u8_gives_the_byte_or_bounds() {
    let buf = [7u8, 8, 9];
    assert_eq!(read_u8(&buf, 0), Ok(7));
    assert_eq!(read_u8(&buf, 2), Ok(9));
    assert_eq!(read_u8(&buf, 3), Err(FatError::Bounds));
    assert_eq!(read_u8(&[], 0), Err(FatError::Bounds));
}

#[test]
fn read_u16_is_little_endian() {
    let buf = [0x00u8, 0x34, 0x12, 0xff];
    assert_eq!(read_u16(&buf, 1), Ok(0x1234));
    assert_eq!(read_u16(&buf, 0), Ok(0x3400));
    assert_eq!(read_u16(&buf, 2), Ok(0xff12));
}

#[test]
fn read_u16_checks_bounds() {
    let buf = [1u8, 2, 3];
    assert_eq!(read_u16(&buf, 2), Err(FatError::Bounds));
    assert_eq!(read_u16(&buf, 3), Err(FatError::Bounds));
    assert_eq!(read_u16(&buf, usize::MAX), Err(FatError::Bounds));
    assert_eq!(read_u16(&[9u8], 0), Err(FatError::Bounds));
}

#[test]
fn read_u32_is_little_endian() {
    let buf = [0xaau8, 0x78, 0x56, 0x34, 0x12, 0xbb];
    assert_eq!(read_u32(&buf, 1), Ok(0x12345678));
    assert_eq!(read_u32(&buf, 0), Ok(0x345678aa));
    assert_eq!(read_u32(&buf, 2), Ok(0xbb123456));
}

#[test]
fn read_u32_checks_bounds() {
    let buf = [1u8, 2, 3, 4, 5];
    assert_eq!(read_u32(&buf, 1), Ok(0x05040302));
    assert_eq!(read_u32(&buf, 2), Err(FatError::Bounds));
    assert_eq!(read_u32(&buf, usize::MAX), Err(FatError::Bounds));
    assert_eq!(read_u32(&[1u8, 2, 3], 0), Err(FatError::Bounds));
}

#[test]
fn read_bytes_copies_a_run() {
    let buf = [1u8, 2, 3, 4, 5];
    assert_eq!(read_bytes(&buf, 1, 3), Ok(vec![2, 3, 4]));
    assert_eq!(read_bytes(&buf, 5, 0), Ok(vec![]));
    assert_eq!(read_bytes(&buf, 0, 5), Ok(vec![1, 2, 3, 4, 5]));
    assert_eq!(read_bytes(&buf, 3, 3), Err(FatError::Bounds));
    assert_eq!(read_bytes(&buf, 6, 0), Err(FatError::Bounds));
    assert_eq!(read_bytes(&buf, usize::MAX, 2), Err(FatError::Bounds));
}

#[test]
fn write_u8_stores_one_byte() {
    let mut buf = vec![0u8; 3];
    assert_eq!(write_u8(&mut buf, 1, 0xab), Ok(()));
    assert_eq!(buf, vec![0, 0xab, 0]);
    assert_eq!(write_u8(&mut buf, 3, 1), Err(FatError::Bounds));
    assert_eq!(buf, vec![0, 0xab, 0]);
}

#[test]
fn write_u16_is_little_endian() {
    let mut buf = vec![0xeeu8; 4];
    assert_eq!(write_u16(&mut buf, 1, 0x1234), Ok(()));
    assert_eq!(buf, vec![0xee, 0x34, 0x12, 0xee]);
    assert_eq!(write_u16(&mut buf, 3, 0xffff), Err(FatError::Bounds));
    assert_eq!(buf, vec![0xee, 0x34, 0x12, 0xee]);
}

#[test]
fn write_u32_is_little_endian() {
    let mut buf = vec![0xeeu8; 6];
    assert_eq!(write_u32(&mut buf, 1, 0x12345678), Ok(()));
    assert_eq!(buf, vec![0xee, 0x78, 0x56, 0x34, 0x12, 0xee]);
    assert_eq!(write_u32(&mut buf, 3, 1), Err(FatError::Bounds));
    assert_eq!(buf, vec![0xee, 0x78, 0x56, 0x34, 0x12, 0xee]);
}

#[test]
fn write_bytes_overwrites_a_run() {
    let mut buf = vec![1u8, 2, 3, 4, 5];
    assert_eq!(write_bytes(&mut buf, 2, &[9, 8]), Ok(()));
    assert_eq!(buf, vec![1, 2, 9, 8, 5]);
    assert_eq!(write_bytes(&mut buf, 4, &[7, 7]), Err(FatError::Bounds));
    assert_eq!(buf, vec![1, 2, 9, 8, 5]);
    assert_eq!(write_bytes(&mut buf, 5, &[]), Ok(()));
    assert_eq!(buf, vec![1, 2, 9, 8, 5]);
}

#[test]
fn written_integers_read_back() {
    let mut buf = vec![0u8; 8];
    for value in [0u16, 1, 0x00ff, 0x0100, 0x1234, 0xfffe, 0xffff] {
        write_u16(&mut buf, 3, value).unwrap();
        assert_eq!(read_u16(&buf, 3), Ok(value));
    }
    for value in [0u32, 1, 0xff, 0x100, 0x10000, 0x1000000, 0x12345678, 0xffffffff] {
        write_u32(&mut buf, 2, value).unwrap();
        assert_eq!(read_u32(&buf, 2), Ok(value));
    }
}

#[test]
fn appended_integers_are_little_endian() {
    let mut out = vec![0x11u8];
    append_u16(&mut out, 0xabcd);
    append_u32(&mut out, 0x01020304);
    append_bytes(&mut out, &[5, 6]);
    assert_eq!(out, vec![0x11, 0xcd, 0xab, 0x04, 0x03, 0x02, 0x01, 5, 6]);
}
