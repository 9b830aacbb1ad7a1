use raytrace::bytes::{u16_to_bytes_little_endian, u32_to_bytes_little_endian};

#[test]
fn test_u16_to_bytes() {
    let array = u16_to_bytes_little_endian(0x1234);
    assert_eq!(array[0], 0x34);
    assert_eq!(array[1], 0x12);
}

#[test]
fn test_u32_to_bytes() {
    let array = u32_to_bytes_little_endian(0x12345678);
    assert_eq!(array[0], 0x78);
    assert_eq!(array[1], 0x56);
    assert_eq!(array[2], 0x34);
    assert_eq!(array[3], 0x12);
}

#[test]
fn u16_extremes() {
    assert_eq!(u16_to_bytes_little_endian(0), [0, 0]);
    assert_eq!(u16_to_bytes_little_endian(1), [1, 0]);
    assert_eq!(u16_to_bytes_little_endian(0x0100), [0, 1]);
    assert_eq!(u16_to_bytes_little_endian(u16::MAX), [0xFF, 0xFF]);
}

#[test]
fn u32_extremes() {
    assert_eq!(u32_to_bytes_little_endian(0), [0, 0, 0, 0]);
    assert_eq!(u32_to_bytes_little_endian(26), [26, 0, 0, 0]);
    assert_eq!(u32_to_bytes_little_endian(0x0100_0000), [0, 0, 0, 1]);
    assert_eq!(u32_to_bytes_little_endian(u32::MAX), [0xFF, 0xFF, 0xFF, 0xFF]);
}

#[test]
fn bytes_agree_with_std() {
    let samples: [u32; 6] = [0, 1, 255, 256, 480_026, 0xDEAD_BEEF];
    for v in samples {
        assert_eq!(u32_to_bytes_little_endian(v), v.to_le_bytes());
        let low: u16 = (v & 0xFFFF) as u16;
        assert_eq!(u16_to_bytes_little_endian(low), low.to_le_bytes());
    }
}
