//! The importer plugin boundary: return codes, the length-prefixed
//! requires-payload and its round trip, and the fixed-width descriptor.

use argosy::import::{
    decode_requires, encode_requires, ensure, read_slice, read_u32, version, write_slice,
    write_u32, Dependencies, Dependency, ImportError, ImporterFFI, BUFFER_IS_TOO_SMALL,
    FFI_VERSION_MINOR, MAGIC, MAX_EXTENSION_COUNT, MAX_FFI_NAME_LEN, NOT_FOUND, NOT_UTF8,
    OTHER_ERROR, REQUIRES, SUCCESS,
};
use argosy::AssetId;

struct OneDep;

impl Dependencies for OneDep {
    fn get(&mut self, source: &str, _target: &str) -> Option<AssetId> {
        if source == "known" {
            AssetId::new(3)
        } else {
            None
        }
    }
}

#[test]
fn get_or_append_records_missing_dependencies() {
    let mut deps = OneDep;
    let mut missing = Vec::new();
    let hit = deps.get_or_append("known", "tex", &mut missing);
    assert_eq!(hit.map(|i| i.value()), Some(3));
    assert!(missing.is_empty());
    let miss = deps.get_or_append("lost", "tex", &mut missing);
    assert!(miss.is_none());
    assert_eq!(missing.len(), 1);
    assert_eq!(missing[0].source, "lost");
    assert_eq!(missing[0].target, "tex");
}

#[test]
fn constants_match_the_boundary() {
    assert_eq!(REQUIRES, 1);
    assert_eq!(SUCCESS, 0);
    assert_eq!(NOT_FOUND, -1);
    assert_eq!(NOT_UTF8, -2);
    assert_eq!(BUFFER_IS_TOO_SMALL, -3);
    assert_eq!(OTHER_ERROR, -6);
    assert_eq!(MAGIC, u32::from_le_bytes(*b"TRES"));
    assert_eq!(version(), FFI_VERSION_MINOR);
}

#[test]
fn u32_writes_little_endian() {
    let mut buf = Vec::new();
    write_u32(&mut buf, 0x0102_0304);
    assert_eq!(buf, vec![4, 3, 2, 1]);
    let (v, off) = read_u32(&buf, 0).unwrap();
    assert_eq!(v, 0x0102_0304);
    assert_eq!(off, 4);
    assert!(read_u32(&buf, 1).is_none());
}

#[test]
fn slice_round_trips_with_length_prefix() {
    let mut buf = Vec::new();
    write_slice(&mut buf, &b"abc".to_vec());
    assert_eq!(buf, vec![3, 0, 0, 0, b'a', b'b', b'c']);
    let (v, off) = read_slice(&buf, 0).unwrap();
    assert_eq!(v, b"abc".to_vec());
    assert_eq!(off, 7);
    // A length running past the buffer is refused.
    let short = vec![9, 0, 0, 0, b'a'];
    assert!(read_slice(&short, 0).is_none());
}

#[test]
fn requires_payload_round_trips() {
    let sources = vec![b"textures/a.png".to_vec(), b"b.png".to_vec()];
    let dependencies = vec![
        (b"mesh.obj".to_vec(), b"mesh".to_vec()),
        (b"".to_vec(), b"t".to_vec()),
    ];
    let buf = encode_requires(&sources, &dependencies);
    let (ss, dd) = decode_requires(&buf).unwrap();
    assert_eq!(ss, sources);
    assert_eq!(dd, dependencies);
}

#[test]
fn empty_requires_payload_round_trips() {
    let buf = encode_requires(&Vec::new(), &Vec::new());
    assert_eq!(buf, vec![0, 0, 0, 0, 0, 0, 0, 0]);
    let (ss, dd) = decode_requires(&buf).unwrap();
    assert!(ss.is_empty());
    assert!(dd.is_empty());
}

#[test]
fn truncated_payload_is_refused() {
    let sources = vec![b"a".to_vec()];
    let mut buf = encode_requires(&sources, &Vec::new());
    buf.pop();
    assert!(decode_requires(&buf).is_none());
    // Trailing garbage is refused too.
    let mut buf2 = encode_requires(&sources, &Vec::new());
    buf2.push(0);
    assert!(decode_requires(&buf2).is_none());
}

#[test]
fn ensure_reports_missing() {
    assert!(ensure(Vec::new(), Vec::new()).is_ok());
    let miss = ensure(
        vec!["a".to_string()],
        vec![Dependency { source: "s".to_string(), target: "t".to_string() }],
    );
    match miss {
        Err(ImportError::Requires { sources, dependencies }) => {
            assert_eq!(sources, vec!["a".to_string()]);
            assert_eq!(dependencies.len(), 1);
            assert_eq!(dependencies[0].source, "s");
            assert_eq!(dependencies[0].target, "t");
        }
        _ => panic!("missing inputs must be reported"),
    }
}

#[test]
fn descriptor_is_padded() {
    let ffi = ImporterFFI::new(
        &b"png importer".to_vec(),
        &vec![b"png".to_vec()],
        &b"texture".to_vec(),
        &vec![b"png".to_vec()],
    )
    .unwrap();
    assert_eq!(ffi.name.len(), MAX_FFI_NAME_LEN);
    assert_eq!(&ffi.name[..12], b"png importer");
    assert!(ffi.name[12..].iter().all(|b| *b == 0));
    assert_eq!(ffi.formats.len(), 32);
    assert_eq!(&ffi.formats[0][..3], b"png");
    assert!(ffi.formats[1].iter().all(|b| *b == 0));
    assert_eq!(ffi.extensions.len(), MAX_EXTENSION_COUNT);
    assert_eq!(&ffi.extensions[0][..3], b"png");
}

#[test]
fn descriptor_rejects_bad_fields() {
    // An empty name.
    assert!(ImporterFFI::new(
        &Vec::new(),
        &vec![b"png".to_vec()],
        &b"t".to_vec(),
        &Vec::new(),
    )
    .is_none());
    // An embedded NUL.
    assert!(ImporterFFI::new(
        &b"a\0b".to_vec(),
        &vec![b"png".to_vec()],
        &b"t".to_vec(),
        &Vec::new(),
    )
    .is_none());
    // A name too long.
    assert!(ImporterFFI::new(
        &vec![b'x'; 65],
        &vec![b"png".to_vec()],
        &b"t".to_vec(),
        &Vec::new(),
    )
    .is_none());
    // Too many extensions (the bound is strict).
    assert!(ImporterFFI::new(
        &b"n".to_vec(),
        &vec![b"png".to_vec()],
        &b"t".to_vec(),
        &vec![b"e".to_vec(); 16],
    )
    .is_none());
    // An extension of the full field width (the bound is strict).
    assert!(ImporterFFI::new(
        &b"n".to_vec(),
        &vec![b"png".to_vec()],
        &b"t".to_vec(),
        &vec![vec![b'e'; 16]],
    )
    .is_none());
}
