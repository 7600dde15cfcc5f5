use pak_extract::codecs::CompressionTag;
use pak_extract::decompressor::{
    Config, DatasheetFormat, Decompressor, Entry, ObjectStreamFormat, ScriptBytecodeFormat,
};
use pak_extract::error::PakError;
use pak_extract::floatfmt::float_cell_text;

fn config() -> Config {
    Config {
        datasheet: DatasheetFormat::Csv,
        objectstream: ObjectStreamFormat::Xml,
        luac: ScriptBytecodeFormat::Raw,
    }
}

#[test]
fn script_bytecode_strips_two_byte_header() {
    let data = vec![0x04, 0x00, 0x1b, 0x4c, 0x75, 0xde, 0xad];
    let entry = Entry {
        declared_size: data.len() as u64,
        method: CompressionTag::Stored,
        name: b"script.luac".to_vec(),
        data,
    };
    let d = Decompressor::try_new(entry, None, None, config()).unwrap();
    let mut sink = Vec::new();
    let meta = d.to_writer(&mut sink).unwrap();
    assert!(meta.is_none());
    assert_eq!(sink, vec![0x1b, 0x4c, 0x75, 0xde, 0xad]);
}

#[test]
fn parsed_bytecode_mode_is_unimplemented() {
    let data = vec![0x04, 0x00, 0x1b, 0x4c, 0x75];
    let entry = Entry {
        declared_size: data.len() as u64,
        method: CompressionTag::Stored,
        name: b"script.luac".to_vec(),
        data,
    };
    let cfg = Config { luac: ScriptBytecodeFormat::Parsed, ..config() };
    let d = Decompressor::try_new(entry, None, None, cfg).unwrap();
    let mut sink = Vec::new();
    assert_eq!(d.to_writer(&mut sink).unwrap_err(), PakError::Unimplemented);
    assert!(sink.is_empty());
}

#[test]
fn opaque_entry_passes_through() {
    let data = b"hello".to_vec();
    let entry = Entry {
        declared_size: 5,
        method: CompressionTag::Stored,
        name: b"note.txt".to_vec(),
        data,
    };
    let d = Decompressor::try_new(entry, None, None, config()).unwrap();
    assert_eq!(d.size(), 5);
    let mut sink = Vec::new();
    let meta = d.to_writer(&mut sink).unwrap();
    assert!(meta.is_none());
    assert_eq!(sink, b"hello".to_vec());
}

#[test]
fn distribution_entry_passes_through() {
    let data = b"region data".to_vec();
    let entry = Entry {
        declared_size: data.len() as u64,
        method: CompressionTag::Stored,
        name: b"world.distribution".to_vec(),
        data,
    };
    let d = Decompressor::try_new(entry, None, None, config()).unwrap();
    let mut sink = Vec::new();
    d.to_writer(&mut sink).unwrap();
    assert_eq!(sink, b"region data".to_vec());
}

#[test]
fn from_decoded_resumes_after_external_decompression() {
    let data = b"already decompressed".to_vec();
    let d = Decompressor::from_decoded(data.clone(), b"x.bin".to_vec(), None, None, config())
        .unwrap();
    let mut sink = Vec::new();
    d.to_writer(&mut sink).unwrap();
    assert_eq!(sink, data);
}

#[test]
fn float_text_exact_values() {
    assert_eq!(float_cell_text(1.5f32.to_bits()), b"1.500000".to_vec());
    assert_eq!(float_cell_text((-2.0f32).to_bits()), b"-2.000000".to_vec());
    assert_eq!(float_cell_text(0.0f32.to_bits()), b"0.000000".to_vec());
    assert_eq!(float_cell_text((-0.0f32).to_bits()), b"-0.000000".to_vec());
    assert_eq!(float_cell_text(0.1f32.to_bits()), b"0.100000".to_vec());
    assert_eq!(float_cell_text(1048576.0f32.to_bits()), b"1048576.000000".to_vec());
    assert_eq!(float_cell_text(f32::NAN.to_bits()), b"NaN".to_vec());
    assert_eq!(float_cell_text(f32::INFINITY.to_bits()), b"inf".to_vec());
    assert_eq!(float_cell_text(f32::NEG_INFINITY.to_bits()), b"-inf".to_vec());
    // a tiny subnormal truncates to six zero fraction digits
    assert_eq!(float_cell_text(1), b"0.000000".to_vec());
    // the largest finite value is rendered as its exact integer
    assert_eq!(
        float_cell_text(f32::MAX.to_bits()),
        b"340282346638528859811704183484516925440.000000".to_vec()
    );
}
