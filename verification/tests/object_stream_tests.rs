use pak_extract::codecs::CompressionTag;
use pak_extract::decompressor::{
    Config, DatasheetFormat, Decompressor, Entry, ObjectStreamFormat, ScriptBytecodeFormat,
};
use pak_extract::object_stream::parse_object_stream;
use pak_extract::tables::HashDictionary;

fn le(v: u32) -> [u8; 4] {
    v.to_le_bytes()
}

/// One root with a string value and no children.
fn single_root_stream() -> Vec<u8> {
    let mut out = Vec::new();
    out.extend_from_slice(&[0x00, 0x00, 0x00, 0x00, 0x03]);
    out.extend_from_slice(&le(1)); // root count
    out.extend_from_slice(&le(0x11223344)); // type hash
    out.push(2); // string value
    out.extend_from_slice(&le(2));
    out.extend_from_slice(b"hi");
    out.extend_from_slice(&le(0)); // child count
    out
}

/// One root with an integer value and one child with an empty value.
fn nested_stream() -> Vec<u8> {
    let mut out = Vec::new();
    out.extend_from_slice(&[0x00, 0x00, 0x00, 0x00, 0x03]);
    out.extend_from_slice(&le(1));
    out.extend_from_slice(&le(0xaabbccdd)); // root type hash
    out.push(1); // int value
    out.extend_from_slice(&le(-5i32 as u32));
    out.extend_from_slice(&le(1)); // one child
    out.extend_from_slice(&le(0x01020304)); // child type hash
    out.extend_from_slice(&le(0x0a0b0c0d)); // child member hash
    out.push(0); // empty value
    out.extend_from_slice(&le(0)); // no grandchildren
    out
}

fn config(os: ObjectStreamFormat) -> Config {
    Config {
        datasheet: DatasheetFormat::Bytes,
        objectstream: os,
        luac: ScriptBytecodeFormat::Raw,
    }
}

fn run(data: Vec<u8>, cfg: Config, dict: Option<&HashDictionary>) -> Vec<u8> {
    let entry = Entry {
        declared_size: data.len() as u64,
        method: CompressionTag::Stored,
        name: b"graph".to_vec(),
        data,
    };
    let d = Decompressor::try_new(entry, None, dict, cfg).unwrap();
    let mut sink = Vec::new();
    let meta = d.to_writer(&mut sink).unwrap();
    assert!(meta.is_none());
    sink
}

#[test]
fn parses_single_root() {
    let roots = parse_object_stream(&single_root_stream()).unwrap();
    assert_eq!(roots.len(), 1);
    assert_eq!(roots[0].type_hash, 0x11223344);
    assert!(roots[0].member.is_none());
    assert!(roots[0].children.is_empty());
}

#[test]
fn xml_render_unresolved_hashes() {
    let sink = run(single_root_stream(), config(ObjectStreamFormat::Xml), None);
    let expected =
        "<ObjectStream>\n\t\t<11223344 type=\"11223344\" value=\"hi\"/>\n</ObjectStream>";
    assert_eq!(String::from_utf8(sink).unwrap(), expected);
}

#[test]
fn xml_render_resolves_hashes_through_dictionary() {
    let mut dict = HashDictionary::new();
    dict.insert(0x11223344, b"Root".to_vec());
    let sink = run(single_root_stream(), config(ObjectStreamFormat::Xml), Some(&dict));
    let expected = "<ObjectStream>\n\t\t<Root type=\"11223344\" value=\"hi\"/>\n</ObjectStream>";
    assert_eq!(String::from_utf8(sink).unwrap(), expected);
}

#[test]
fn os_mini_json_render() {
    let sink = run(single_root_stream(), config(ObjectStreamFormat::Mini), None);
    assert_eq!(
        String::from_utf8(sink).unwrap(),
        r#"[{"type":"11223344","value":"hi","children":[]}]"#
    );
}

#[test]
fn mini_json_nested_with_names() {
    let mut dict = HashDictionary::new();
    dict.insert(0x0a0b0c0d, b"position".to_vec());
    let sink = run(nested_stream(), config(ObjectStreamFormat::Mini), Some(&dict));
    assert_eq!(
        String::from_utf8(sink).unwrap(),
        r#"[{"type":"aabbccdd","value":-5,"children":[{"type":"01020304","name":"position","value":null,"children":[]}]}]"#
    );
}

#[test]
fn os_pretty_json_render() {
    let sink = run(single_root_stream(), config(ObjectStreamFormat::Pretty), None);
    let expected = "[\n  {\n    \"type\": \"11223344\",\n    \"value\": \"hi\",\n    \"children\": []\n  }\n]";
    assert_eq!(String::from_utf8(sink).unwrap(), expected);
}

#[test]
fn bytes_mode_passes_through() {
    let data = single_root_stream();
    let sink = run(data.clone(), config(ObjectStreamFormat::Bytes), None);
    assert_eq!(sink, data);
}

#[test]
fn corrupt_stream_falls_back_to_passthrough() {
    // the magic, then a truncated body
    let data = vec![0x00, 0x00, 0x00, 0x00, 0x03, 0x01, 0x02];
    let entry = Entry {
        declared_size: data.len() as u64,
        method: CompressionTag::Stored,
        name: b"graph".to_vec(),
        data: data.clone(),
    };
    let d = Decompressor::try_new(entry, None, None, config(ObjectStreamFormat::Pretty)).unwrap();
    let mut sink = Vec::new();
    let meta = d.to_writer(&mut sink).unwrap();
    assert!(meta.is_none());
    assert_eq!(sink, data);
}

#[test]
fn trailing_bytes_are_rejected() {
    let mut data = single_root_stream();
    data.push(0xff);
    assert!(parse_object_stream(&data).is_err());
}
