use jvm::error::ClassError;
use jvm::read::{read_bytes, read_u1, read_u2, read_u4, read_u8};

#[test]
fn read_u1_reads_one_byte() {
    let bytes = [0xABu8, 0x01];
    let mut pos: usize = 0;
    assert_eq!(read_u1(&bytes, &mut pos), Ok(0xAB));
    assert_eq!(pos, 1);
}

#[test]
fn read_u2_is_big_endian() {
    let bytes = [0x12u8, 0x34, 0x56];
    let mut pos: usize = 1;
    assert_eq!(read_u2(&bytes, &mut pos), Ok(0x3456));
    assert_eq!(pos, 3);
}

#[test]
fn read_u4_is_big_endian() {
    let bytes = [0xCAu8, 0xFE, 0xBA, 0xBE];
    let mut pos: usize = 0;
    assert_eq!(read_u4(&bytes, &mut pos), Ok(0xCAFEBABE));
    assert_eq!(pos, 4);
}

#[test]
fn read_u8_is_big_endian() {
    let bytes = [0x01u8, 0x02, 0x03, 0x04, 0x05, 0x06, 0x07, 0x08];
    let mut pos: usize = 0;
    assert_eq!(read_u8(&bytes, &mut pos), Ok(0x0102030405060708));
    assert_eq!(pos, 8);
}

#[test]
fn short_reads_fail_without_moving() {
    let bytes = [0x01u8, 0x02, 0x03];
    let mut pos: usize = 0;
    assert_eq!(read_u4(&bytes, &mut pos), Err(ClassError::UnexpectedEof));
    assert_eq!(pos, 0);
    pos = 2;
    assert_eq!(read_u2(&bytes, &mut pos), Err(ClassError::UnexpectedEof));
    assert_eq!(pos, 2);
    pos = 3;
    assert_eq!(read_u1(&bytes, &mut pos), Err(ClassError::UnexpectedEof));
    assert_eq!(read_u8(&bytes, &mut 0), Err(ClassError::UnexpectedEof));
}

#[test]
fn read_bytes_takes_a_block() {
    let bytes = [1u8, 2, 3, 4, 5];
    let mut pos: usize = 1;
    assert_eq!(read_bytes(3, &bytes, &mut pos), Ok(vec![2, 3, 4]));
    assert_eq!(pos, 4);
    assert_eq!(read_bytes(2, &bytes, &mut pos), Err(ClassError::UnexpectedEof));
    assert_eq!(pos, 4);
    assert_eq!(read_bytes(0, &bytes, &mut pos), Ok(vec![]));
}
