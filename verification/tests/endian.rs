use pngpong::endian::{read_be, to_be_bytes};

#[test]
pub fn test_to_be_bytes_most_significant_first() {
    assert_eq!(to_be_bytes(42), [0, 0, 0, 42]);
    assert_eq!(to_be_bytes(0x0102_0304), [1, 2, 3, 4]);
    assert_eq!(to_be_bytes(2882656334), [171, 209, 216, 78]);
    assert_eq!(to_be_bytes(0), [0, 0, 0, 0]);
    assert_eq!(to_be_bytes(u32::MAX), [255, 255, 255, 255]);
}

#[test]
pub fn test_read_be_at_offset() {
    let bytes = [9, 171, 209, 216, 78, 7];
    assert_eq!(read_be(&bytes, 1), 2882656334);
    assert_eq!(read_be(&[0, 0, 1, 0], 0), 256);
    assert_eq!(read_be(&[255, 255, 255, 255], 0), u32::MAX);
}

#[test]
pub fn test_be_round_trip() {
    for value in [0u32, 1, 255, 256, 65535, 65536, 0x00FF_FFFF, 0x0100_0000, u32::MAX] {
        assert_eq!(read_be(&to_be_bytes(value), 0), value);
        assert_eq!(to_be_bytes(value), value.to_be_bytes());
    }
}
