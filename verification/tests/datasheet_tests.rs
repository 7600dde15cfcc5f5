use pak_extract::codecs::CompressionTag;
use pak_extract::csvread::csv_parse_simple;
use pak_extract::datasheet::parse_datasheet;
use pak_extract::decompressor::{
    Config, DatasheetFormat, Decompressor, Entry, Metadata, ObjectStreamFormat,
    ScriptBytecodeFormat,
};
use pak_extract::error::PakError;
use pak_extract::tables::LocalizationMap;

fn le(v: u32) -> [u8; 4] {
    v.to_le_bytes()
}

/// Builds datasheet bytes: pool strings are NUL-terminated and referred
/// to by offset; cells are (tag, raw) per column type.
fn build_ds(
    name_ref: u32,
    cat_ref: u32,
    pool: &[u8],
    cols: &[(u32, u32)],
    cells: &[Vec<u32>],
) -> Vec<u8> {
    let mut out = Vec::new();
    out.extend_from_slice(&[0x11, 0x00, 0x00, 0x00]);
    out.extend_from_slice(&le(name_ref));
    out.extend_from_slice(&le(cat_ref));
    out.extend_from_slice(&le(cells.len() as u32));
    out.extend_from_slice(&le(cols.len() as u32));
    out.extend_from_slice(&le(pool.len() as u32));
    out.extend_from_slice(pool);
    for (name_ref, tag) in cols {
        out.extend_from_slice(&le(*name_ref));
        out.extend_from_slice(&le(*tag));
    }
    for row in cells {
        for raw in row {
            out.extend_from_slice(&le(*raw));
        }
    }
    out
}

fn config(ds: DatasheetFormat) -> Config {
    Config {
        datasheet: ds,
        objectstream: ObjectStreamFormat::Bytes,
        luac: ScriptBytecodeFormat::Raw,
    }
}

// pool: "sheet\0cat\0id\0name\0a\0b\0"
const POOL: &[u8] = b"sheet\0cat\0id\0name\0a\0b\0";

fn two_by_two() -> Vec<u8> {
    build_ds(
        0,
        6,
        POOL,
        &[(10, 1), (13, 3)],
        &[vec![1, 18], vec![2, 20]],
    )
}

fn run(data: Vec<u8>, cfg: Config, loc: Option<&LocalizationMap>) -> (Vec<u8>, Option<Metadata>) {
    let entry = Entry {
        declared_size: data.len() as u64,
        method: CompressionTag::Stored,
        name: b"test.datasheet".to_vec(),
        data,
    };
    let d = Decompressor::try_new(entry, loc, None, cfg).unwrap();
    let mut sink = Vec::new();
    let meta = d.to_writer(&mut sink).unwrap();
    (sink, meta)
}

#[test]
fn csv_render_matches_expected() {
    let (sink, meta) = run(two_by_two(), config(DatasheetFormat::Csv), None);
    assert_eq!(sink, b"id,name\n1,a\n2,b\n".to_vec());
    assert!(matches!(meta, Some(Metadata::Datasheet(_))));
}

#[test]
fn csv_round_trip_recovers_header_and_row_count() {
    let (sink, _) = run(two_by_two(), config(DatasheetFormat::Csv), None);
    let (names, lines) = csv_parse_simple(&sink);
    assert_eq!(names, vec![b"id".to_vec(), b"name".to_vec()]);
    assert_eq!(lines - 1, 2);
}

#[test]
fn mini_json_render() {
    let (sink, _) = run(two_by_two(), config(DatasheetFormat::Mini), None);
    assert_eq!(
        String::from_utf8(sink).unwrap(),
        r#"[{"id":1,"name":"a"},{"id":2,"name":"b"}]"#
    );
}

#[test]
fn mini_json_is_valid_json() {
    let (sink, _) = run(two_by_two(), config(DatasheetFormat::Mini), None);
    let v: serde_json::Value = serde_json::from_slice(&sink).unwrap();
    assert_eq!(v[1]["name"], serde_json::Value::String("b".to_string()));
}

#[test]
fn pretty_json_render() {
    let (sink, _) = run(two_by_two(), config(DatasheetFormat::Pretty), None);
    let expected = "[\n  {\n    \"id\": 1,\n    \"name\": \"a\"\n  },\n  {\n    \"id\": 2,\n    \"name\": \"b\"\n  }\n]";
    assert_eq!(String::from_utf8(sink).unwrap(), expected);
}

#[test]
fn yaml_render() {
    let (sink, _) = run(two_by_two(), config(DatasheetFormat::Yaml), None);
    let expected = "- \"id\": 1\n  \"name\": \"a\"\n- \"id\": 2\n  \"name\": \"b\"\n";
    assert_eq!(String::from_utf8(sink).unwrap(), expected);
}

#[test]
fn sql_render() {
    let (sink, _) = run(two_by_two(), config(DatasheetFormat::Sql), None);
    let expected = "CREATE TABLE \"cat_sheet\" (\"id\" INTEGER, \"name\" TEXT);\nINSERT INTO \"cat_sheet\" VALUES (1, 'a');\nINSERT INTO \"cat_sheet\" VALUES (2, 'b');\n";
    assert_eq!(String::from_utf8(sink).unwrap(), expected);
}

#[test]
fn bytes_format_passes_through_and_returns_metadata() {
    let data = two_by_two();
    let (sink, meta) = run(data.clone(), config(DatasheetFormat::Bytes), None);
    assert_eq!(sink, data);
    match meta {
        Some(Metadata::Datasheet(ds)) => {
            assert_eq!(ds.name, b"sheet".to_vec());
            assert_eq!(ds.category, b"cat".to_vec());
            assert_eq!(ds.columns.len(), 2);
            assert_eq!(ds.rows.len(), 2);
        }
        None => panic!("expected datasheet metadata"),
    }
}

#[test]
fn xml_format_is_unimplemented() {
    let data = two_by_two();
    let entry = Entry {
        declared_size: data.len() as u64,
        method: CompressionTag::Stored,
        name: b"t".to_vec(),
        data,
    };
    let d = Decompressor::try_new(entry, None, None, config(DatasheetFormat::Xml)).unwrap();
    let mut sink = Vec::new();
    let err = d.to_writer(&mut sink).unwrap_err();
    assert_eq!(err, PakError::Unimplemented);
    assert!(sink.is_empty());
}

#[test]
fn corrupt_datasheet_falls_back_to_passthrough() {
    // the magic, then a body too short for its own counts
    let mut data = vec![0x11, 0x00, 0x00, 0x00];
    data.extend_from_slice(&[0xff; 24]);
    let (sink, meta) = run(data.clone(), config(DatasheetFormat::Csv), None);
    assert_eq!(sink, data);
    assert!(meta.is_none());
}

#[test]
fn localized_cell_renders_translation() {
    // pool: "s\0c\0k\0@greet\0"
    let pool = b"s\0c\0k\0@greet\0";
    let data = build_ds(0, 2, pool, &[(4, 3)], &[vec![6]]);
    let mut loc = LocalizationMap::new();
    loc.insert(b"greet".to_vec(), Some(b"hi".to_vec()));
    let (sink, _) = run(data, config(DatasheetFormat::Mini), Some(&loc));
    assert_eq!(String::from_utf8(sink).unwrap(), r#"[{"k":"hi"}]"#);
}

#[test]
fn unmapped_key_renders_literal() {
    let pool = b"s\0c\0k\0@bye\0";
    let data = build_ds(0, 2, pool, &[(4, 3)], &[vec![6]]);
    let mut loc = LocalizationMap::new();
    loc.insert(b"greet".to_vec(), Some(b"hi".to_vec()));
    let (sink, _) = run(data, config(DatasheetFormat::Mini), Some(&loc));
    assert_eq!(String::from_utf8(sink).unwrap(), r#"[{"k":"@bye"}]"#);
}

#[test]
fn key_mapped_to_no_translation_renders_literal() {
    let pool = b"s\0c\0k\0@bye\0";
    let data = build_ds(0, 2, pool, &[(4, 3)], &[vec![6]]);
    let mut loc = LocalizationMap::new();
    loc.insert(b"bye".to_vec(), None);
    let (sink, _) = run(data, config(DatasheetFormat::Mini), Some(&loc));
    assert_eq!(String::from_utf8(sink).unwrap(), r#"[{"k":"@bye"}]"#);
}

#[test]
fn float_and_bool_cells_render() {
    // pool: "s\0c\0f\0b\0"
    let pool = b"s\0c\0f\0b\0";
    let data = build_ds(
        0,
        2,
        pool,
        &[(4, 2), (6, 4)],
        &[vec![1.5f32.to_bits(), 1], vec![0.25f32.to_bits(), 0]],
    );
    let (sink, _) = run(data, config(DatasheetFormat::Csv), None);
    assert_eq!(
        String::from_utf8(sink).unwrap(),
        "f,b\n1.500000,true\n0.250000,false\n"
    );
}

#[test]
fn negative_int_cell_renders() {
    let pool = b"s\0c\0v\0";
    let data = build_ds(0, 2, pool, &[(4, 1)], &[vec![(-7i32) as u32]]);
    let (sink, _) = run(data, config(DatasheetFormat::Csv), None);
    assert_eq!(String::from_utf8(sink).unwrap(), "v\n-7\n");
}

#[test]
fn extreme_int_cells_render() {
    let pool = b"s\0c\0v\0";
    let data = build_ds(
        0,
        2,
        pool,
        &[(4, 1)],
        &[vec![i32::MIN as u32], vec![i32::MAX as u32]],
    );
    let (sink, _) = run(data, config(DatasheetFormat::Csv), None);
    assert_eq!(String::from_utf8(sink).unwrap(), "v\n-2147483648\n2147483647\n");
}

#[test]
fn csv_escapes_special_cells() {
    // pool holds a string with a comma and a quote: "s\0c\0v\0a,\"b\0"
    let pool = b"s\0c\0v\0a,\"b\0";
    let data = build_ds(0, 2, pool, &[(4, 3)], &[vec![6]]);
    let (sink, _) = run(data, config(DatasheetFormat::Csv), None);
    assert_eq!(String::from_utf8(sink).unwrap(), "v\n\"a,\"\"b\"\n");
}

#[test]
fn bad_type_tag_is_parse_error() {
    let pool = b"s\0c\0v\0";
    let data = build_ds(0, 2, pool, &[(4, 7)], &[vec![0]]);
    let err = parse_datasheet(&data).unwrap_err();
    assert_eq!(err, PakError::ParseError);
}

#[test]
fn out_of_range_string_ref_is_parse_error() {
    let pool = b"s\0c\0v\0";
    let data = build_ds(0, 2, pool, &[(4, 3)], &[vec![999]]);
    let err = parse_datasheet(&data).unwrap_err();
    assert_eq!(err, PakError::ParseError);
}

#[test]
fn empty_table_renders_empty_list() {
    let pool = b"s\0c\0";
    let data = build_ds(0, 2, pool, &[], &[]);
    let (sink, _) = run(data.clone(), config(DatasheetFormat::Mini), None);
    assert_eq!(String::from_utf8(sink).unwrap(), "[]");
    let (sink, _) = run(data, config(DatasheetFormat::Yaml), None);
    assert_eq!(String::from_utf8(sink).unwrap(), "[]\n");
}
