use cratedb::common::{to_hex_string, from_hex_string, sha1_digest};

#[test]
fn digest_string() {
    let one234 = [
        113, 16, 237, 164, 208, 158, 6, 42, 165, 228, 163, 144, 176, 165, 114, 172, 13, 44, 2, 32,
    ];
    let contents = [
        74, 117, 108, 160, 126, 148, 135, 244, 130, 70, 90, 153, 232, 40, 106, 188, 134, 186, 77,
        199,
    ];
    assert_eq!(sha1_digest(b"1234"), one234);
    assert_eq!(sha1_digest(b"contents"), contents);
}

#[test]
fn string_from_hex() {
    let sha_1234 = [
        113, 16, 237, 164, 208, 158, 6, 42, 165, 228, 163, 144, 176, 165, 114, 172, 13, 44, 2, 32,
    ];
    assert_eq!(to_hex_string(&[0xF]), "0f");
    assert_eq!(to_hex_string(&[11]), "0b");
    assert_eq!(to_hex_string(&[255]), "ff");
    assert_eq!(to_hex_string(b"11111"), "3131313131");
    assert_eq!(to_hex_string(b"aaad2"), "6161616432");
    assert_eq!(to_hex_string(b"zzzzz"), "7a7a7a7a7a");
    assert_eq!(to_hex_string(b""), "");
    assert_eq!(to_hex_string(b""), "");
    assert_eq!(to_hex_string(&sha_1234), "7110eda4d09e062aa5e4a390b0a572ac0d2c0220");
}

#[test]
fn hex_decoding() {
    assert_eq!(
        from_hex_string("7110eda4d09e062aa5e4a390b0a572ac0d2c0220"),
        Some(vec![
            113, 16, 237, 164, 208, 158, 6, 42, 165, 228, 163, 144, 176, 165, 114, 172, 13, 44, 2,
            32,
        ])
    );
    assert_eq!(from_hex_string("FF00"), Some(vec![255, 0]));
    assert_eq!(from_hex_string(""), Some(vec![]));
    // an odd number of digits never decodes
    assert_eq!(from_hex_string("abc"), None);
    // a character outside the hexadecimal alphabet never decodes
    assert_eq!(from_hex_string("zz"), None);
}

#[test]
fn hex_round_trip() {
    let bytes = vec![0u8, 1, 2, 254, 255, 16, 32];
    assert_eq!(from_hex_string(&to_hex_string(&bytes)), Some(bytes));
}
