use std::io::Read;

use pak_extract::codecs::{azcs_wrap, decode_entry, deflate_wrap, is_azcs, CompressionTag};
use pak_extract::error::PakError;

fn zlib_best(data: &[u8]) -> Vec<u8> {
    let mut enc = flate2::read::ZlibEncoder::new(data, flate2::Compression::best());
    let mut out = Vec::new();
    enc.read_to_end(&mut out).unwrap();
    out
}

fn deflate_raw(data: &[u8]) -> Vec<u8> {
    let mut enc = flate2::read::DeflateEncoder::new(data, flate2::Compression::default());
    let mut out = Vec::new();
    enc.read_to_end(&mut out).unwrap();
    out
}

#[test]
fn stored_entry_is_identity() {
    let data = b"hello";
    let out = decode_entry(CompressionTag::Stored, 5, data).unwrap();
    assert_eq!(out, b"hello");
}

#[test]
fn empty_entry_decodes_empty() {
    let out = decode_entry(CompressionTag::Deflated, 0, &[]).unwrap();
    assert!(out.is_empty());
}

#[test]
fn zlib_deflate_entry_decodes() {
    let z = zlib_best(b"ABC");
    assert_eq!(&z[..2], &[0x78, 0xda]);
    let out = decode_entry(CompressionTag::Deflated, 3, &z).unwrap();
    assert_eq!(out, b"ABC");
}

#[test]
fn raw_deflate_entry_decodes() {
    let z = deflate_raw(b"ABC");
    assert_ne!(&z[..2], &[0x78, 0xda]);
    let out = decode_entry(CompressionTag::Deflated, 3, &z).unwrap();
    assert_eq!(out, b"ABC");
}

#[test]
fn library_deflate_wrap_round_trips() {
    let payload: Vec<u8> = (0u16..600).map(|v| (v % 251) as u8).collect();
    let z = deflate_wrap(&payload);
    let out = decode_entry(CompressionTag::Deflated, payload.len() as u64, &z).unwrap();
    assert_eq!(out, payload);
}

#[test]
fn unsupported_method_is_refused() {
    let err = decode_entry(CompressionTag::Other(9), 4, b"abcd").unwrap_err();
    assert_eq!(err, PakError::UnsupportedCodec);
}

#[test]
fn corrupt_deflate_is_codec_error() {
    let err = decode_entry(CompressionTag::Deflated, 4, &[0x01, 0x02, 0x03]).unwrap_err();
    assert_eq!(err, PakError::CodecError);
}

#[test]
fn azcs_magic_is_detected() {
    assert!(is_azcs(&[0x41, 0x5a, 0x43, 0x53]));
    assert!(!is_azcs(&[0x41, 0x5a, 0x43, 0x54]));
}

#[test]
fn azcs_envelope_unwraps_inside_stored_entry() {
    let payload = b"inner payload bytes".to_vec();
    let env = azcs_wrap(&payload);
    assert_eq!(&env[..4], b"AZCS");
    let out = decode_entry(CompressionTag::Stored, env.len() as u64, &env).unwrap();
    assert_eq!(out, payload);
}

#[test]
fn azcs_envelope_unwraps_inside_deflate_entry() {
    let payload = b"doubly wrapped".to_vec();
    let env = azcs_wrap(&payload);
    let z = zlib_best(&env);
    let out = decode_entry(CompressionTag::Deflated, env.len() as u64, &z).unwrap();
    assert_eq!(out, payload);
}

#[test]
fn corrupt_azcs_envelope_is_codec_error() {
    let mut env = b"AZCS".to_vec();
    env.extend_from_slice(&[0xde, 0xad, 0xbe, 0xef]);
    let err = decode_entry(CompressionTag::Stored, env.len() as u64, &env).unwrap_err();
    assert_eq!(err, PakError::CodecError);
}

#[test]
fn short_non_azcs_buffer_passes_through() {
    let out = decode_entry(CompressionTag::Stored, 2, &[0x41, 0x5a]).unwrap();
    assert_eq!(out, vec![0x41, 0x5a]);
}
