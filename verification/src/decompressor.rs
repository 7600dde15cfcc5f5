//! The per-entry pipeline: decompress an archive entry through the codec
//! cascade, classify the decoded buffer, and write it to a sink in the
//! configured output encoding, handing back the parsed datasheet as
//! side-band metadata when there is one.
use vstd::prelude::*;

use crate::bytes::push_bytes;
use crate::classify::{classify, classify_spec, PayloadKind};
use crate::codecs::{azcs_finish, azcs_unwrap, decode_entry, entry_decode, CompressionTag};
use crate::datasheet::{ds_parse_spec, parse_datasheet, Datasheet, DatasheetV};
use crate::dsrender::{csv_text, json_text, render_csv, render_json, render_sql, render_yaml, sql_text, yaml_text};
use crate::error::PakError;
use crate::escape::loc_view;
use crate::object_stream::{os_parse, parse_object_stream};
use crate::osrender::{dict_view, os_json_text, render_os_json, render_os_xml, xml_text};
use crate::tables::{HashDictionary, LocalizationMap};

verus! {

/// Output encodings for a datasheet entry.
#[derive(Clone, Copy, PartialEq, Eq, Structural, Debug)]
pub enum DatasheetFormat {
    Mini,
    Pretty,
    Yaml,
    Csv,
    Bytes,
    /// Reserved; selecting it fails with `Unimplemented`.
    Xml,
    Sql,
}

/// Output encodings for an object-stream entry.
#[derive(Clone, Copy, PartialEq, Eq, Structural, Debug)]
pub enum ObjectStreamFormat {
    Xml,
    Mini,
    Pretty,
    Bytes,
}

/// Output encodings for a script-bytecode entry.
#[derive(Clone, Copy, PartialEq, Eq, Structural, Debug)]
pub enum ScriptBytecodeFormat {
    /// The two-byte header is stripped; the rest is copied unchanged.
    Raw,
    /// Reserved; selecting it fails with `Unimplemented`.
    Parsed,
}

/// The per-kind output selections, immutable for a run.
#[derive(Clone, Copy, PartialEq, Eq, Structural, Debug)]
pub struct Config {
    pub datasheet: DatasheetFormat,
    pub objectstream: ObjectStreamFormat,
    pub luac: ScriptBytecodeFormat,
}

/// One archive member, as the container reader hands it over: declared
/// uncompressed size, compression method, filename, raw byte content.
pub struct Entry {
    pub declared_size: u64,
    pub method: CompressionTag,
    pub name: Vec<u8>,
    pub data: Vec<u8>,
}

/// Side-band metadata produced next to the written output.
#[derive(Debug)]
pub enum Metadata {
    Datasheet(Datasheet),
}

/// Owns one entry's fully decoded buffer and renders it on demand.
pub struct Decompressor<'a> {
    pub buf: Vec<u8>,
    pub name: Vec<u8>,
    pub localization: Option<&'a LocalizationMap>,
    pub hashes: Option<&'a HashDictionary>,
    pub config: Config,
}

/// What `to_writer` must produce: the bytes written to the sink and the
/// side-band metadata, or the error on which nothing is written.
pub open spec fn to_writer_spec(
    buf: Seq<u8>,
    name: Seq<u8>,
    loc: Map<Seq<u8>, Option<Seq<u8>>>,
    dict: Map<u32, Seq<u8>>,
    cfg: Config,
) -> Result<(Seq<u8>, Option<DatasheetV>), PakError> {
    match classify_spec(buf, name) {
        PayloadKind::ScriptBytecode => match cfg.luac {
            ScriptBytecodeFormat::Raw => Ok((buf.skip(2), None)),
            ScriptBytecodeFormat::Parsed => Err(PakError::Unimplemented),
        },
        PayloadKind::ObjectStream => match cfg.objectstream {
            ObjectStreamFormat::Bytes => Ok((buf, None)),
            fmt => match os_parse(buf) {
                None => Ok((buf, None)),
                Some(roots) => Ok(
                    (
                        match fmt {
                            ObjectStreamFormat::Xml => xml_text(roots, dict),
                            ObjectStreamFormat::Mini => os_json_text(roots, dict, false),
                            ObjectStreamFormat::Pretty => os_json_text(roots, dict, true),
                            ObjectStreamFormat::Bytes => buf,
                        },
                        None,
                    ),
                ),
            },
        },
        PayloadKind::Datasheet => match ds_parse_spec(buf) {
            None => Ok((buf, None)),
            Some(d) => match cfg.datasheet {
                DatasheetFormat::Bytes => Ok((buf, Some(d))),
                DatasheetFormat::Xml => Err(PakError::Unimplemented),
                DatasheetFormat::Mini => Ok((json_text(d, loc, false), Some(d))),
                DatasheetFormat::Pretty => Ok((json_text(d, loc, true), Some(d))),
                DatasheetFormat::Yaml => Ok((yaml_text(d, loc), Some(d))),
                DatasheetFormat::Csv => Ok((csv_text(d, loc), Some(d))),
                DatasheetFormat::Sql => Ok((sql_text(d, loc), Some(d))),
            },
        },
        PayloadKind::Distribution => Ok((buf, None)),
        PayloadKind::Opaque => Ok((buf, None)),
    }
}

impl<'a> Decompressor<'a> {
    /// Decodes the entry eagerly through the codec cascade and holds the
    /// result. Fails exactly where the codec layer fails.
    pub fn try_new(
        entry: Entry,
        localization: Option<&'a LocalizationMap>,
        hashes: Option<&'a HashDictionary>,
        config: Config,
    ) -> (r: Result<Self, PakError>)
        ensures
            match r {
                Ok(d) => entry_decode(entry.method, entry.declared_size as nat, entry.data@)
                    == Ok::<_, PakError>(d.buf@) && d.name@ == entry.name@ && d.localization
                    == localization && d.hashes == hashes && d.config == config,
                Err(e) => entry_decode(entry.method, entry.declared_size as nat, entry.data@)
                    == Err::<Seq<u8>, _>(e),
            },
    {
        match decode_entry(entry.method, entry.declared_size, entry.data.as_slice()) {
            Ok(buf) => Ok(Decompressor { buf, name: entry.name, localization, hashes, config }),
            Err(e) => Err(e),
        }
    }

    /// Resumes the pipeline on a buffer an external decompressor already
    /// produced (the vendor method the driver decodes itself): applies
    /// the AZCS unwrap step and holds the result.
    pub fn from_decoded(
        buf: Vec<u8>,
        name: Vec<u8>,
        localization: Option<&'a LocalizationMap>,
        hashes: Option<&'a HashDictionary>,
        config: Config,
    ) -> (r: Result<Self, PakError>)
        ensures
            match r {
                Ok(d) => azcs_unwrap(buf@) == Some(d.buf@) && d.name@ == name@ && d.localization
                    == localization && d.hashes == hashes && d.config == config,
                Err(e) => azcs_unwrap(buf@) is None && e == PakError::CodecError,
            },
    {
        match azcs_finish(buf) {
            Ok(b) => Ok(Decompressor { buf: b, name, localization, hashes, config }),
            Err(e) => Err(e),
        }
    }

    /// Length of the fully decoded buffer.
    pub fn size(&self) -> (r: usize)
        ensures
            r == self.buf@.len(),
    {
        self.buf.len()
    }

    /// The payload kind of the decoded buffer, from its leading bytes and
    /// the filename.
    pub fn file_type(&self) -> (r: PayloadKind)
        ensures
            r == classify_spec(self.buf@, self.name@),
    {
        classify(self.buf.as_slice(), self.name.as_slice())
    }

    /// Renders the decoded buffer into the sink in the configured output
    /// encoding, in a single pass. On decode failure of a structured
    /// payload the raw buffer passes through byte for byte and no
    /// metadata is returned; a reserved encoding fails with
    /// `Unimplemented` before anything is written.
    pub fn to_writer(&self, sink: &mut Vec<u8>) -> (r: Result<Option<Metadata>, PakError>)
        ensures
            match r {
                Ok(meta) => to_writer_spec(
                    self.buf@,
                    self.name@,
                    loc_view(self.localization),
                    dict_view(self.hashes),
                    self.config,
                ) matches Ok(p) && final(sink)@ == old(sink)@ + p.0 && (match meta {
                    Some(m) => m matches Metadata::Datasheet(ds) && p.1 == Some(ds@),
                    None => p.1 is None,
                }),
                Err(e) => to_writer_spec(
                    self.buf@,
                    self.name@,
                    loc_view(self.localization),
                    dict_view(self.hashes),
                    self.config,
                ) == Err::<(Seq<u8>, Option<DatasheetV>), _>(e) && final(sink)@ == old(sink)@,
            },
    {
        let kind = self.file_type();
        match kind {
            PayloadKind::ScriptBytecode => match self.config.luac {
                ScriptBytecodeFormat::Raw => {
                    let rest = vstd::slice::slice_subrange(
                        self.buf.as_slice(),
                        2,
                        self.buf.len(),
                    );
                    push_bytes(sink, rest);
                    assert(rest@ =~= self.buf@.skip(2));
                    Ok(None)
                },
                ScriptBytecodeFormat::Parsed => Err(PakError::Unimplemented),
            },
            PayloadKind::ObjectStream => {
                if self.config.objectstream == ObjectStreamFormat::Bytes {
                    push_bytes(sink, self.buf.as_slice());
                    return Ok(None);
                }
                match parse_object_stream(self.buf.as_slice()) {
                    Err(_) => {
                        push_bytes(sink, self.buf.as_slice());
                        Ok(None)
                    },
                    Ok(roots) => {
                        let text = match self.config.objectstream {
                            ObjectStreamFormat::Xml => render_os_xml(&roots, self.hashes),
                            ObjectStreamFormat::Mini => render_os_json(&roots, self.hashes, false),
                            ObjectStreamFormat::Pretty => render_os_json(&roots, self.hashes, true),
                            ObjectStreamFormat::Bytes => {
                                let mut copy: Vec<u8> = Vec::new();
                                push_bytes(&mut copy, self.buf.as_slice());
                                assert(copy@ =~= self.buf@);
                                copy
                            },
                        };
                        push_bytes(sink, text.as_slice());
                        Ok(None)
                    },
                }
            },
            PayloadKind::Datasheet => {
                match parse_datasheet(self.buf.as_slice()) {
                    Err(_) => {
                        push_bytes(sink, self.buf.as_slice());
                        Ok(None)
                    },
                    Ok(ds) => {
                        match self.config.datasheet {
                            DatasheetFormat::Bytes => {
                                push_bytes(sink, self.buf.as_slice());
                                Ok(Some(Metadata::Datasheet(ds)))
                            },
                            DatasheetFormat::Xml => Err(PakError::Unimplemented),
                            DatasheetFormat::Mini => {
                                let text = render_json(&ds, self.localization, false);
                                push_bytes(sink, text.as_slice());
                                Ok(Some(Metadata::Datasheet(ds)))
                            },
                            DatasheetFormat::Pretty => {
                                let text = render_json(&ds, self.localization, true);
                                push_bytes(sink, text.as_slice());
                                Ok(Some(Metadata::Datasheet(ds)))
                            },
                            DatasheetFormat::Yaml => {
                                let text = render_yaml(&ds, self.localization);
                                push_bytes(sink, text.as_slice());
                                Ok(Some(Metadata::Datasheet(ds)))
                            },
                            DatasheetFormat::Csv => {
                                let text = render_csv(&ds, self.localization);
                                push_bytes(sink, text.as_slice());
                                Ok(Some(Metadata::Datasheet(ds)))
                            },
                            DatasheetFormat::Sql => {
                                let text = render_sql(&ds, self.localization);
                                push_bytes(sink, text.as_slice());
                                Ok(Some(Metadata::Datasheet(ds)))
                            },
                        }
                    },
                }
            },
            PayloadKind::Distribution => {
                push_bytes(sink, self.buf.as_slice());
                Ok(None)
            },
            PayloadKind::Opaque => {
                push_bytes(sink, self.buf.as_slice());
                Ok(None)
            },
        }
    }
}

// ---- laws ----

/// Law: bytes passthrough. With every kind configured to its raw form,
/// whatever the buffer holds, the bytes written are exactly the decoded
/// buffer — except that script bytecode loses its two-byte header — and
/// the call cannot fail.
pub proof fn lemma_bytes_passthrough(
    buf: Seq<u8>,
    name: Seq<u8>,
    loc: Map<Seq<u8>, Option<Seq<u8>>>,
    dict: Map<u32, Seq<u8>>,
    cfg: Config,
)
    requires
        cfg.luac == ScriptBytecodeFormat::Raw,
        cfg.objectstream == ObjectStreamFormat::Bytes,
        cfg.datasheet == DatasheetFormat::Bytes,
    ensures
        to_writer_spec(buf, name, loc, dict, cfg) matches Ok(p) && p.0 == (if classify_spec(
            buf,
            name,
        ) == PayloadKind::ScriptBytecode {
            buf.skip(2)
        } else {
            buf
        }),
{
}

/// Law: fallback safety. When the buffer's prefix announces a structured
/// kind but the decoder rejects the body, the raw buffer passes through
/// and no error and no metadata are produced.
pub proof fn lemma_fallback_safety(
    buf: Seq<u8>,
    name: Seq<u8>,
    loc: Map<Seq<u8>, Option<Seq<u8>>>,
    dict: Map<u32, Seq<u8>>,
    cfg: Config,
)
    requires
        (classify_spec(buf, name) == PayloadKind::ObjectStream && os_parse(buf) is None)
            || (classify_spec(buf, name) == PayloadKind::Datasheet && ds_parse_spec(buf) is None),
    ensures
        to_writer_spec(buf, name, loc, dict, cfg) == Ok::<_, PakError>((buf, None::<DatasheetV>)),
{
}

} // verus!
