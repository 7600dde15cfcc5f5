//! Decoding pipeline for game-asset archive bundles ("paks"): per entry,
//! a codec cascade (the ZIP-declared method, then the engine's AZCS
//! envelope), a magic-byte classifier, binary decoders for the engine's
//! datasheet and object-stream formats, and serializers that write the
//! decoded value to a sink as raw bytes, JSON, YAML, CSV, SQL or XML.
pub mod bytes;
pub mod classify;
pub mod codecs;
pub mod csvread;
pub mod datasheet;
pub mod decompressor;
pub mod dsrender;
pub mod error;
pub mod escape;
pub mod floatfmt;
pub mod object_stream;
pub mod osrender;
pub mod tables;
