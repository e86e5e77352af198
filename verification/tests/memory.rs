//! The remote-memory copy helpers, exercised against this process's own
//! address space through `LocalProcess`.

use remoteprocess::LocalProcess;
use remoteprocess::PlainData;
use remoteprocess::ProcessMemory;

/// The address of a value in this process, as the copy helpers take it.
fn addr_of<T>(x: &T) -> usize {
    std::slice::from_ref(x).as_ptr() as usize
}

struct Point {
    x: i32,
    y: i64,
}

#[test]
fn test_copy_pointer() {
    let original = Point { x: 15, y: 25 };
    let copy_x: i32 = LocalProcess.copy_pointer(addr_of(&original.x)).unwrap();
    let copy_y: i64 = LocalProcess.copy_pointer(addr_of(&original.y)).unwrap();
    assert_eq!(original.x, copy_x);
    assert_eq!(original.y, copy_y);
}

#[test]
fn test_copy_struct() {
    let original = Point { x: 10, y: 20 };
    let copy_x: i32 = LocalProcess.copy_struct(addr_of(&original.x)).unwrap();
    let copy_y: i64 = LocalProcess.copy_struct(addr_of(&original.y)).unwrap();
    assert_eq!(original.x, copy_x);
    assert_eq!(original.y, copy_y);
}

#[test]
fn copy_struct_round_trips_each_plain_type() {
    let a: u8 = 0xAB;
    let b: u16 = 0xBEEF;
    let c: u32 = 0xDEAD_BEEF;
    let d: u64 = 0x0123_4567_89AB_CDEF;
    let e: i32 = -123456;
    let f: i64 = -98765432101234;
    assert_eq!(a, LocalProcess.copy_struct::<u8>(addr_of(&a)).unwrap());
    assert_eq!(b, LocalProcess.copy_struct::<u16>(addr_of(&b)).unwrap());
    assert_eq!(c, LocalProcess.copy_struct::<u32>(addr_of(&c)).unwrap());
    assert_eq!(d, LocalProcess.copy_struct::<u64>(addr_of(&d)).unwrap());
    assert_eq!(e, LocalProcess.copy_struct::<i32>(addr_of(&e)).unwrap());
    assert_eq!(f, LocalProcess.copy_struct::<i64>(addr_of(&f)).unwrap());
}

#[test]
fn copy_returns_exactly_the_requested_length_and_bytes() {
    let data: Vec<u8> = (0u8..200u8).collect();
    let base = data.as_ptr() as usize;
    for len in [0usize, 1, 7, 200] {
        let copied = LocalProcess.copy(base, len).unwrap();
        assert_eq!(copied.len(), len);
        assert_eq!(&copied[..], &data[..len]);
    }
}

#[test]
fn copy_vec_matches_copy_struct_element_by_element() {
    let values: [u32; 5] = [1, 2, 0xFFFF_FFFF, 42, 7];
    let base = values.as_ptr() as usize;
    let copied: Vec<u32> = LocalProcess.copy_vec(base, 5).unwrap();
    assert_eq!(copied.len(), 5);
    for i in 0..5 {
        let one: u32 = LocalProcess
            .copy_struct(base + i * u32::size())
            .unwrap();
        assert_eq!(copied[i], one);
        assert_eq!(copied[i], values[i]);
    }
}

#[test]
fn copy_vec_of_length_zero_is_empty() {
    let values: [u64; 2] = [3, 4];
    let base = values.as_ptr() as usize;
    let copied: Vec<u64> = LocalProcess.copy_vec(base, 0).unwrap();
    assert!(copied.is_empty());
}

#[test]
fn from_bytes_decodes_little_endian() {
    let bytes: Vec<u8> = vec![0xEF, 0xBE, 0xAD, 0xDE];
    assert_eq!(u32::from_bytes(&bytes), 0xDEAD_BEEF);
    let neg: Vec<u8> = vec![0xFF, 0xFF, 0xFF, 0xFF];
    assert_eq!(i32::from_bytes(&neg), -1);
    let neg8: Vec<u8> = vec![0xFE, 0xFF, 0xFF, 0xFF, 0xFF, 0xFF, 0xFF, 0xFF];
    assert_eq!(i64::from_bytes(&neg8), -2);
}

#[test]
fn read_of_unmapped_address_fails() {
    let mut buf: Vec<u8> = vec![0u8; 16];
    // Page zero is never mapped for an ordinary process.
    let r = LocalProcess.read(8, &mut buf);
    assert!(r.is_err());
    assert_eq!(buf.len(), 16);
}
