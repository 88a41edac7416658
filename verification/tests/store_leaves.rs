//! The store's leaves: content hashes, artifact naming and the id
//! generator.

use argosy::store::{
    artifact_name, default_prefix, prefix_is_default, suffix_is_zero, u64_to_decimal,
    with_path_candidates, PREFIX_STARTING_LEN,
};
use argosy::{IdGen, Sha256Hash, StoreInfo};
use argosy::ParseAssetIdError;

#[test]
fn sha256_of_known_inputs() {
    // The digest of the empty input, a fixed value of the function.
    let h = Sha256Hash::new(&Vec::new());
    assert_eq!(
        h.to_hex(),
        "e3b0c44298fc1c149afbf4c8996fb92427ae41e4649b934ca495991b7852b855"
    );
    let h = Sha256Hash::new(&b"abc".to_vec());
    assert_eq!(
        h.to_hex(),
        "ba7816bf8f01cfea414140de5dae2223b00361a396177a9cb410ff61f20015ad"
    );
}

#[test]
fn sha256_hex_round_trips() {
    let h = Sha256Hash::new(&b"abc".to_vec());
    let hex = h.to_hex();
    let back = Sha256Hash::from_str(&hex).unwrap();
    assert_eq!(back.to_hex(), hex);
    // Any case parses; short strings are front-padded with zeroes.
    let h2 = Sha256Hash::from_str("FF").unwrap();
    assert_eq!(
        h2.to_hex(),
        "00000000000000000000000000000000000000000000000000000000000000ff"
    );
    assert_eq!(Sha256Hash::from_str(""), Err(ParseAssetIdError::Empty));
    assert_eq!(Sha256Hash::from_str("xyz"), Err(ParseAssetIdError::InvalidDigit));
    assert_eq!(
        Sha256Hash::from_str(&"0".repeat(65)),
        Err(ParseAssetIdError::Overflow)
    );
}

#[test]
fn decimal_formatting() {
    assert_eq!(u64_to_decimal(0), "0");
    assert_eq!(u64_to_decimal(7), "7");
    assert_eq!(u64_to_decimal(10), "10");
    assert_eq!(u64_to_decimal(90210), "90210");
    assert_eq!(u64_to_decimal(u64::MAX), "18446744073709551615");
}

#[test]
fn artifact_names_by_prefix_and_suffix() {
    let hex = "0123456789abcdef";
    assert_eq!(artifact_name(hex, 8, 0), "01234567");
    assert_eq!(artifact_name(hex, 16, 0), hex);
    assert_eq!(artifact_name(hex, 16, 3), "0123456789abcdef:3");
}

#[test]
fn candidate_names_extend_then_suffix() {
    let hex = "0123456789";
    // Prefixes grow from the starting length to the whole hash.
    let (p, s, name) = with_path_candidates(hex, 0);
    assert_eq!((p, s), (8, 0));
    assert_eq!(name, "01234567");
    let (p, s, name) = with_path_candidates(hex, 1);
    assert_eq!((p, s), (9, 0));
    assert_eq!(name, "012345678");
    let (p, s, name) = with_path_candidates(hex, 2);
    assert_eq!((p, s), (10, 0));
    assert_eq!(name, "0123456789");
    // Then whole-hash collisions get numeric suffixes.
    let (p, s, name) = with_path_candidates(hex, 3);
    assert_eq!((p, s), (10, 0));
    assert_eq!(name, "0123456789:0");
    let (p, s, name) = with_path_candidates(hex, 4);
    assert_eq!((p, s), (10, 1));
    assert_eq!(name, "0123456789:1");
}

#[test]
fn prefix_defaults() {
    assert_eq!(default_prefix(), PREFIX_STARTING_LEN);
    assert!(prefix_is_default(&8));
    assert!(!prefix_is_default(&9));
    assert!(suffix_is_zero(&0));
    assert!(!suffix_is_zero(&2));
}

#[test]
fn store_info_holds_its_fields() {
    let info = StoreInfo::new(
        Some("artifacts".to_string()),
        None,
        Some("tmp".to_string()),
        vec!["imp.so".to_string()],
    );
    assert_eq!(info.artifacts.as_deref(), Some("artifacts"));
    assert_eq!(info.external, None);
    assert_eq!(info.temp.as_deref(), Some("tmp"));
    assert_eq!(info.importers, vec!["imp.so".to_string()]);
    let d = StoreInfo::default();
    assert!(d.artifacts.is_none() && d.external.is_none() && d.temp.is_none());
    assert!(d.importers.is_empty());
}

#[test]
fn id_gen_composes_nonzero_ids() {
    let mut gen = IdGen::new(0x3f_0000);
    let a = gen.new_id(100).unwrap();
    let b = gen.new_id(100).unwrap();
    assert_ne!(a.value(), b.value());
    // Seconds land in the low 32 bits; the counter above them.
    assert_eq!(a.value() & 0xffff_ffff, 100);
    assert_eq!(b.value() & 0xffff_ffff, 100);
    assert_eq!((a.value() >> 32) & 0x3ff, 1);
    assert_eq!((b.value() >> 32) & 0x3ff, 2);
    // A later second resets the counter.
    let c = gen.new_id(101).unwrap();
    assert_eq!(c.value() & 0xffff_ffff, 101);
    assert_eq!((c.value() >> 32) & 0x3ff, 1);
    // The clock never runs backwards.
    let d = gen.new_id(99).unwrap();
    assert_eq!(d.value() & 0xffff_ffff, 101);
}

#[test]
fn id_gen_exhausts_its_counter() {
    let mut gen = IdGen::new(0);
    // The counter spans 1..=1024 within one second: 1024 draws.
    for _ in 0..1024 {
        assert!(gen.new_id(5).is_some());
    }
    assert!(gen.new_id(5).is_none());
    // The next second frees it again.
    assert!(gen.new_id(6).is_some());
}
