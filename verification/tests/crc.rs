use pngpong::crc::{crc32, crc32_of_parts, finish, update, SEED};

#[test]
pub fn test_crc32_check_value() {
    assert_eq!(crc32(b"123456789"), 0xCBF4_3926);
}

#[test]
pub fn test_crc32_of_empty_message() {
    assert_eq!(crc32(&[]), 0);
}

#[test]
pub fn test_crc32_of_one_byte() {
    assert_eq!(crc32(b"a"), 0xE8B7_BE43);
}

#[test]
pub fn test_crc32_of_end_chunk_tag() {
    assert_eq!(crc32(b"IEND"), 0xAE42_6082);
}

#[test]
pub fn test_crc32_of_parts_is_crc32_of_whole() {
    let whole = b"RuStThis is where your secret message will be!";
    assert_eq!(crc32(whole), 2882656334);
    assert_eq!(crc32_of_parts(&whole[..4], &whole[4..]), 2882656334);
    assert_eq!(crc32_of_parts(&[], whole), 2882656334);
    assert_eq!(crc32_of_parts(whole, &[]), 2882656334);
}

#[test]
pub fn test_crc32_update_in_steps() {
    let reg = update(update(update(SEED, b"123"), b"456"), b"789");
    assert_eq!(finish(reg), 0xCBF4_3926);
    assert_eq!(finish(SEED), 0);
}

#[test]
pub fn test_crc32_single_byte_changes_are_detected() {
    let message = b"RuStThis is where your secret message will be!".to_vec();
    let good = crc32(&message);
    for at in 0..message.len() {
        for bit in 0..8 {
            let mut bad = message.clone();
            bad[at] ^= 1 << bit;
            assert_ne!(crc32(&bad), good);
        }
    }
}
