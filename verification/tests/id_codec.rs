//! The identifier's hex codec: 16 lowercase digits out, any case in, zero
//! rejected.

use argosy::{AssetId, ParseAssetIdError};

#[test]
fn encode_is_16_lowercase() {
    let id = AssetId::new(0xff).unwrap();
    assert_eq!(id.to_hex(), "00000000000000ff");
    let id = AssetId::new(u64::MAX).unwrap();
    assert_eq!(id.to_hex(), "ffffffffffffffff");
    let id = AssetId::new(0x0123_4567_89ab_cdef).unwrap();
    assert_eq!(id.to_hex(), "0123456789abcdef");
}

#[test]
fn parse_accepts_any_case() {
    let id = AssetId::from_str("00000000000000FF").unwrap();
    assert_eq!(id.value(), 0xff);
    let id = AssetId::from_str("abCDef").unwrap();
    assert_eq!(id.value(), 0xabcdef);
}

#[test]
fn parse_round_trip() {
    for v in [1u64, 0xff, 0xdead_beef, u64::MAX, 0x8000_0000_0000_0000] {
        let id = AssetId::new(v).unwrap();
        let hex = id.to_hex();
        assert_eq!(hex.len(), 16);
        let back = AssetId::from_str(&hex).unwrap();
        assert_eq!(back.value(), v);
    }
}

#[test]
fn parse_rejects_zero() {
    assert_eq!(AssetId::from_str("0000"), Err(ParseAssetIdError::ZeroId));
    assert!(AssetId::new(0).is_none());
}

#[test]
fn parse_rejects_empty_and_bad_digits() {
    assert_eq!(AssetId::from_str(""), Err(ParseAssetIdError::Empty));
    assert_eq!(AssetId::from_str("12g4"), Err(ParseAssetIdError::InvalidDigit));
    assert_eq!(AssetId::from_str(" 12"), Err(ParseAssetIdError::InvalidDigit));
}

#[test]
fn parse_rejects_overflow() {
    assert_eq!(
        AssetId::from_str("10000000000000000"),
        Err(ParseAssetIdError::Overflow)
    );
    // Leading zeroes keep the value in range.
    let id = AssetId::from_str("0000000000000000001").unwrap();
    assert_eq!(id.value(), 1);
}
