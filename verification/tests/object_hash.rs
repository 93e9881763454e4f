use commitlint::git::{DecodeError, ObjectHash};

const TEXT: &[u8; 40] = b"0123456789abcdeffedcba98765432100f1e2d3c";
const BYTES: [u8; 20] = [
    0x01, 0x23, 0x45, 0x67, 0x89, 0xab, 0xcd, 0xef, 0xfe, 0xdc, 0xba, 0x98, 0x76, 0x54, 0x32,
    0x10, 0x0f, 0x1e, 0x2d, 0x3c,
];

#[test]
fn from_hex_reads_two_digits_for_each_byte() {
    let hash = ObjectHash::from_hex(TEXT).unwrap();
    assert_eq!(hash.as_bytes(), &BYTES);
}

#[test]
fn from_hex_takes_capital_letters() {
    let hash = ObjectHash::from_hex(b"0123456789ABCDEFFEDCBA98765432100F1E2D3C").unwrap();
    assert_eq!(hash.as_bytes(), &BYTES);
    let mixed = ObjectHash::from_hex(b"0123456789aBcDeFfEdCbA98765432100f1E2d3C").unwrap();
    assert_eq!(mixed, hash);
}

#[test]
fn from_hex_refuses_other_lengths() {
    assert_eq!(ObjectHash::from_hex(b""), Err(DecodeError::InvalidLength));
    assert_eq!(
        ObjectHash::from_hex(&TEXT[..39]),
        Err(DecodeError::InvalidLength)
    );
    assert_eq!(
        ObjectHash::from_hex(&TEXT[..38]),
        Err(DecodeError::InvalidLength)
    );
    let mut longer = TEXT.to_vec();
    longer.push(b'0');
    assert_eq!(
        ObjectHash::from_hex(&longer),
        Err(DecodeError::InvalidLength)
    );
    longer.push(b'0');
    assert_eq!(
        ObjectHash::from_hex(&longer),
        Err(DecodeError::InvalidLength)
    );
    assert_eq!(
        ObjectHash::from_hex(b"not hex and not forty bytes long"),
        Err(DecodeError::InvalidLength)
    );
}

#[test]
fn from_hex_refuses_what_is_no_digit() {
    for bad in [b'g', b'G', b' ', b'\n', b'/', b':', b'@', b'`', 0x00, 0xff] {
        for at in [0, 1, 20, 38, 39] {
            let mut text = *TEXT;
            text[at] = bad;
            assert_eq!(
                ObjectHash::from_hex(&text),
                Err(DecodeError::InvalidDigit),
                "{bad:#x} at {at}"
            );
        }
    }
}

#[test]
fn to_hex_string_writes_forty_digits_in_lower_case() {
    let hash = ObjectHash::from_hex(b"0123456789ABCDEFFEDCBA98765432100F1E2D3C").unwrap();
    assert_eq!(
        hash.to_hex_string(),
        "0123456789abcdeffedcba98765432100f1e2d3c"
    );
    let zero = ObjectHash::from_hex(&[b'0'; 40]).unwrap();
    assert_eq!(zero.as_bytes(), &[0u8; 20]);
    assert_eq!(zero.to_hex_string(), "0".repeat(40));
    let ones = ObjectHash::from_hex(&[b'f'; 40]).unwrap();
    assert_eq!(ones.as_bytes(), &[0xffu8; 20]);
    assert_eq!(ones.to_hex_string(), "f".repeat(40));
}

#[test]
fn text_of_a_hash_is_read_back_as_that_hash() {
    for text in [
        &b"0123456789abcdeffedcba98765432100f1e2d3c"[..],
        b"da39a3ee5e6b4b0d3255bfef95601890afd80709",
        b"0000000000000000000000000000000000000000",
        b"ffffffffffffffffffffffffffffffffffffffff",
    ] {
        let hash = ObjectHash::from_hex(text).unwrap();
        let written = hash.to_hex_string();
        assert_eq!(written.as_bytes(), text);
        assert_eq!(ObjectHash::from_hex(written.as_bytes()), Ok(hash));
    }
}

#[test]
fn every_byte_value_is_written_and_read_back() {
    for first in 0..=255u8 {
        let text = format!("{first:02x}{}", "00".repeat(19));
        let hash = ObjectHash::from_hex(text.as_bytes()).unwrap();
        assert_eq!(hash.as_bytes()[0], first);
        assert_eq!(hash.to_hex_string(), text);
    }
}
