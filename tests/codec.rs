use rustlink::codec::{decode_round, encode_round};
use rustlink::error::Error;
use rustlink::round::{Round, Word256};

fn zero_round() -> Round {
    Round {
        identifier: String::new(),
        round_id: 0,
        answered_in_round: 0,
        started_at: Word256 { hi: 0, lo: 0 },
        updated_at: Word256 { hi: 0, lo: 0 },
        answer: 0,
        decimals: 0,
    }
}

fn max_round() -> Round {
    Round {
        identifier: "Ξ/ETH".to_string(),
        round_id: u128::MAX,
        answered_in_round: u128::MAX,
        started_at: Word256 { hi: u128::MAX, lo: u128::MAX },
        updated_at: Word256 { hi: u128::MAX, lo: 0 },
        answer: u128::MAX,
        decimals: u8::MAX,
    }
}

#[test]
fn round_trip_zero_values() {
    let r = zero_round();
    assert_eq!(decode_round(&encode_round(&r)), Ok(r));
}

#[test]
fn round_trip_maximum_values() {
    let r = max_round();
    assert_eq!(decode_round(&encode_round(&r)), Ok(r));
}

#[test]
fn encoded_layout_is_little_endian_fixed_width() {
    let r = Round {
        identifier: "A".to_string(),
        round_id: 1,
        answered_in_round: 2,
        started_at: Word256::from_u128(3),
        updated_at: Word256 { hi: 1, lo: 0 },
        answer: 0x0102,
        decimals: 8,
    };
    let mut expected = vec![1u8, 0, 0, 0, 0, 0, 0, 0, b'A'];
    let mut field = |value: &[u8], width: usize| {
        let mut bytes = value.to_vec();
        bytes.resize(width, 0);
        expected.extend_from_slice(&bytes);
    };
    field(&[1], 16);
    field(&[2], 16);
    field(&[3], 32);
    let mut updated = vec![0u8; 16];
    updated.push(1);
    field(&updated, 32);
    field(&[0x02, 0x01], 16);
    field(&[8], 1);
    let bytes = encode_round(&r);
    assert_eq!(bytes.len(), 122);
    assert_eq!(bytes, expected);
}

#[test]
fn identifier_is_decoded_from_its_bytes() {
    let mut r = zero_round();
    r.identifier = "BTC".to_string();
    let decoded = decode_round(&encode_round(&r)).expect("well-formed");
    assert_eq!(decoded.identifier, "BTC");
}

#[test]
fn truncated_bytes_do_not_decode() {
    let bytes = encode_round(&max_round());
    assert_eq!(decode_round(&bytes[..bytes.len() - 1].to_vec()), Err(Error::Deserialize));
    assert_eq!(decode_round(&vec![1, 2, 3]), Err(Error::Deserialize));
    assert_eq!(decode_round(&Vec::new()), Err(Error::Deserialize));
}

#[test]
fn trailing_bytes_do_not_decode() {
    let mut bytes = encode_round(&zero_round());
    bytes.push(0);
    assert_eq!(decode_round(&bytes), Err(Error::Deserialize));
}

#[test]
fn invalid_utf8_identifier_does_not_decode() {
    let mut bytes = encode_round(&zero_round());
    bytes[0] = 1;
    bytes.insert(8, 0xff);
    assert_eq!(bytes.len(), 122);
    assert_eq!(decode_round(&bytes), Err(Error::Deserialize));
}

#[test]
fn huge_declared_length_does_not_decode() {
    let mut bytes = encode_round(&zero_round());
    for b in bytes.iter_mut().take(8) {
        *b = 0xff;
    }
    assert_eq!(decode_round(&bytes), Err(Error::Deserialize));
}
