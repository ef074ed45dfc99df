use light::{read_string, read_u16, read_u32, read_u8, str_eq, WorldError};

#[test]
fn read_u8_advances_and_stops_at_end() {
    let data = [7u8, 8u8];
    let mut pos = 0usize;
    assert_eq!(read_u8(&data, &mut pos).unwrap(), 7);
    assert_eq!(pos, 1);
    assert_eq!(read_u8(&data, &mut pos).unwrap(), 8);
    assert!(matches!(read_u8(&data, &mut pos), Err(WorldError::Io)));
}

#[test]
fn read_u16_is_big_endian() {
    let data = [1u8, 2u8, 0xffu8, 0xffu8];
    let mut pos = 0usize;
    assert_eq!(read_u16(&data, &mut pos).unwrap(), 258);
    assert_eq!(read_u16(&data, &mut pos).unwrap(), 65535);
    assert_eq!(pos, 4);
    let mut short = 3usize;
    assert!(matches!(read_u16(&data, &mut short), Err(WorldError::Io)));
}

#[test]
fn read_u32_is_big_endian() {
    let data = [0u8, 1u8, 2u8, 3u8];
    let mut pos = 0usize;
    assert_eq!(read_u32(&data, &mut pos).unwrap(), 66051);
    assert_eq!(pos, 4);
}

#[test]
fn read_string_reads_length_prefixed_utf8() {
    let data = [0u8, 3u8, b'a', b'i', b'r', 9u8];
    let mut pos = 0usize;
    assert_eq!(read_string(&data, &mut pos).unwrap(), "air");
    assert_eq!(pos, 5);

    let short = [0u8, 9u8, b'a'];
    let mut pos2 = 0usize;
    assert!(matches!(read_string(&short, &mut pos2), Err(WorldError::Io)));

    let bad = [0u8, 2u8, 0xffu8, 0xfeu8];
    let mut pos3 = 0usize;
    assert!(matches!(
        read_string(&bad, &mut pos3),
        Err(WorldError::InvalidUtf8)
    ));
}

#[test]
fn str_eq_compares_characters() {
    assert!(str_eq("air", "air"));
    assert!(!str_eq("air", "ai"));
    assert!(!str_eq("air", "AIR"));
    assert!(str_eq("", ""));
    assert!(str_eq("héllo", "héllo"));
}
