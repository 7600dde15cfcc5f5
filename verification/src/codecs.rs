//! The codec layer: decompresses raw archive-entry bytes by the declared
//! ZIP method, then opportunistically unwraps the engine's inner
//! compression envelope ("AZCS", a four-byte magic over a zlib stream).
//!
//! Deflate entries appear in the wild both as raw DEFLATE and as
//! zlib-wrapped streams; the first two bytes decide (`78 DA`, the zlib
//! best-compression header, selects zlib). The sniffed bytes stay part of
//! the decoded stream.
use std::io::Read;

use vstd::prelude::*;

use crate::bytes::has_prefix;
use crate::error::PakError;

verus! {

/// Tags the compression method a ZIP container declared for one entry.
#[derive(Clone, Copy, PartialEq, Eq, Structural, Debug)]
pub enum CompressionTag {
    Stored,
    Deflated,
    /// Any other ZIP method tag. Tag 15 is the vendor method decoded by the
    /// external Oodle block decompressor, which the driver runs; the codec
    /// layer itself refuses every tag in this arm.
    Other(u16),
}

/// The zlib stream that compressing `p` at best compression yields.
pub uninterp spec fn zlib_of(p: Seq<u8>) -> Seq<u8>;

/// What decoding `b` as a zlib stream yields; `None` when `b` is not a
/// well-formed zlib stream.
pub uninterp spec fn zlib_inflate(b: Seq<u8>) -> Option<Seq<u8>>;

/// What decoding `b` as a raw DEFLATE stream yields; `None` when `b` is
/// not a well-formed DEFLATE stream.
pub uninterp spec fn raw_inflate(b: Seq<u8>) -> Option<Seq<u8>>;

/// Relies on flate2::read::ZlibEncoder at Compression::best(): the output
/// is a deterministic function of the input, begins with the zlib header
/// bytes 0x78 0xDA (method 8, 32 KiB window, highest-level flag, as the
/// backend writes them for level 9), and zlib decoding gives the input
/// back (DEFLATE is lossless). Compressing an in-memory slice cannot fail.
#[verifier::external_body]
fn zlib_compress_raw(data: &[u8]) -> (r: Vec<u8>)
    ensures
        r@ == zlib_of(data@),
        r@.len() >= 2 && r@[0] == 0x78 && r@[1] == 0xda,
        zlib_inflate(r@) == Some(data@),
{
    let mut enc = flate2::read::ZlibEncoder::new(data, flate2::Compression::best());
    let mut out = Vec::new();
    enc.read_to_end(&mut out).expect("compressing in-memory bytes");
    out
}

/// Relies on flate2::read::ZlibDecoder: whether the bytes form a valid
/// zlib stream, and what they decode to, depend on the bytes alone.
#[verifier::external_body]
fn zlib_decompress_raw(data: &[u8]) -> (r: Option<Vec<u8>>)
    ensures
        match r {
            Some(v) => zlib_inflate(data@) == Some(v@),
            None => zlib_inflate(data@) is None,
        },
{
    let mut dec = flate2::read::ZlibDecoder::new(data);
    let mut out = Vec::new();
    match dec.read_to_end(&mut out) {
        Ok(_) => Some(out),
        Err(_) => None,
    }
}

/// Relies on flate2::read::DeflateDecoder: whether the bytes form a valid
/// raw DEFLATE stream, and what they decode to, depend on the bytes alone.
#[verifier::external_body]
fn raw_inflate_exec(data: &[u8]) -> (r: Option<Vec<u8>>)
    ensures
        match r {
            Some(v) => raw_inflate(data@) == Some(v@),
            None => raw_inflate(data@) is None,
        },
{
    let mut dec = flate2::read::DeflateDecoder::new(data);
    let mut out = Vec::new();
    match dec.read_to_end(&mut out) {
        Ok(_) => Some(out),
        Err(_) => None,
    }
}

// ---- the AZCS envelope ----

pub open spec fn azcs_magic() -> Seq<u8> {
    seq![0x41u8, 0x5a, 0x43, 0x53]
}

/// An AZCS envelope announces itself by its four-byte magic.
pub open spec fn is_azcs_seq(b: Seq<u8>) -> bool {
    has_prefix(b, azcs_magic())
}

/// The AZCS predicate of the engine: does this four-byte signature open an
/// envelope?
pub fn is_azcs(sig: &[u8; 4]) -> (r: bool)
    ensures
        r == is_azcs_seq(sig@),
{
    let r = sig[0] == 0x41 && sig[1] == 0x5a && sig[2] == 0x43 && sig[3] == 0x53;
    proof {
        if r {
            assert(sig@.take(4) =~= azcs_magic());
        } else {
            if is_azcs_seq(sig@) {
                assert(sig@.take(4)[0] == 0x41 && sig@.take(4)[1] == 0x5a && sig@.take(4)[2]
                    == 0x43 && sig@.take(4)[3] == 0x53);
            }
        }
    }
    r
}

/// The AZCS unwrap step applied to every freshly decompressed buffer: a
/// buffer that carries the magic holds a zlib stream after it; any other
/// buffer passes through unchanged. `None` means the envelope is corrupt.
pub open spec fn azcs_unwrap(b: Seq<u8>) -> Option<Seq<u8>> {
    if is_azcs_seq(b) {
        zlib_inflate(b.skip(4))
    } else {
        Some(b)
    }
}

fn buffer_is_azcs(buf: &[u8]) -> (r: bool)
    ensures
        r == is_azcs_seq(buf@),
{
    if buf.len() < 4 {
        assert(!is_azcs_seq(buf@));
        return false;
    }
    let sig: [u8; 4] = [buf[0], buf[1], buf[2], buf[3]];
    proof {
        if has_prefix(buf@, azcs_magic()) {
            assert(buf@.take(4)[0] == 0x41 && buf@.take(4)[1] == 0x5a && buf@.take(4)[2] == 0x43
                && buf@.take(4)[3] == 0x53);
            assert(sig@.take(4) =~= azcs_magic());
        }
        if has_prefix(sig@, azcs_magic()) {
            assert(sig@.take(4)[0] == 0x41 && sig@.take(4)[1] == 0x5a && sig@.take(4)[2] == 0x43
                && sig@.take(4)[3] == 0x53);
            assert(buf@.take(4) =~= azcs_magic());
        }
    }
    is_azcs(&sig)
}

/// Applies the AZCS unwrap step to a decompressed buffer, replacing it by
/// the envelope's content when the magic is present.
pub fn azcs_finish(buf: Vec<u8>) -> (r: Result<Vec<u8>, PakError>)
    ensures
        match r {
            Ok(v) => azcs_unwrap(buf@) == Some(v@),
            Err(e) => azcs_unwrap(buf@) is None && e == PakError::CodecError,
        },
{
    if buffer_is_azcs(buf.as_slice()) {
        let inner = slice_skip4(buf.as_slice());
        match zlib_decompress_raw(inner) {
            Some(v) => Ok(v),
            None => Err(PakError::CodecError),
        }
    } else {
        Ok(buf)
    }
}

fn slice_skip4(b: &[u8]) -> (r: &[u8])
    requires
        b@.len() >= 4,
    ensures
        r@ == b@.skip(4),
{
    let (_, rest) = b.split_at(4);
    rest
}

/// Wraps a payload in an AZCS envelope: the magic followed by the zlib
/// stream of the payload.
///
/// Law: unwrapping a well-formed envelope yields exactly the payload it
/// was built over.
pub fn azcs_wrap(q: &[u8]) -> (r: Vec<u8>)
    ensures
        r@ == azcs_magic() + zlib_of(q@),
        is_azcs_seq(r@),
        azcs_unwrap(r@) == Some(q@),
{
    let mut out: Vec<u8> = Vec::new();
    out.push(0x41);
    out.push(0x5a);
    out.push(0x43);
    out.push(0x53);
    let z = zlib_compress_raw(q);
    crate::bytes::push_bytes(&mut out, z.as_slice());
    proof {
        assert(out@ =~= azcs_magic() + zlib_of(q@));
        assert(out@.take(4) =~= azcs_magic());
        assert(out@.skip(4) =~= zlib_of(q@));
    }
    out
}

// ---- entry decoding ----

/// The two-byte sniff: a deflate entry whose stream opens with the zlib
/// best-compression header is decoded as zlib, any other as raw DEFLATE.
pub open spec fn deflate_decode(b: Seq<u8>) -> Option<Seq<u8>> {
    if b.len() >= 2 && b[0] == 0x78 && b[1] == 0xda {
        zlib_inflate(b)
    } else {
        raw_inflate(b)
    }
}

/// The whole codec layer as a function of the entry: what decoding the raw
/// entry bytes `data`, declared to hold `declared` uncompressed bytes under
/// `method`, must yield.
pub open spec fn entry_decode(method: CompressionTag, declared: nat, data: Seq<u8>) -> Result<
    Seq<u8>,
    PakError,
> {
    if declared == 0 {
        Ok(Seq::empty())
    } else {
        match method {
            CompressionTag::Stored => match azcs_unwrap(data) {
                Some(q) => Ok(q),
                None => Err(PakError::CodecError),
            },
            CompressionTag::Deflated => match deflate_decode(data) {
                Some(p) => match azcs_unwrap(p) {
                    Some(q) => Ok(q),
                    None => Err(PakError::CodecError),
                },
                None => Err(PakError::CodecError),
            },
            CompressionTag::Other(_) => Err(PakError::UnsupportedCodec),
        }
    }
}

/// Decodes one archive entry through the codec cascade: the ZIP-declared
/// method first, then the AZCS unwrap. The vendor method (tag 15) needs
/// the external Oodle decompressor, which cannot run here; the driver
/// decodes such entries itself and resumes the pipeline at
/// [`azcs_finish`].
pub fn decode_entry(method: CompressionTag, declared_size: u64, data: &[u8]) -> (r: Result<
    Vec<u8>,
    PakError,
>)
    ensures
        match r {
            Ok(v) => entry_decode(method, declared_size as nat, data@) == Ok::<_, PakError>(v@),
            Err(e) => entry_decode(method, declared_size as nat, data@) == Err::<Seq<u8>, _>(e),
        },
{
    if declared_size == 0 {
        let empty: Vec<u8> = Vec::new();
        assert(empty@ =~= Seq::<u8>::empty());
        return Ok(empty);
    }
    match method {
        CompressionTag::Stored => {
            let mut copy: Vec<u8> = Vec::new();
            crate::bytes::push_bytes(&mut copy, data);
            assert(copy@ =~= data@);
            azcs_finish(copy)
        },
        CompressionTag::Deflated => {
            let plain = if data.len() >= 2 && data[0] == 0x78 && data[1] == 0xda {
                zlib_decompress_raw(data)
            } else {
                raw_inflate_exec(data)
            };
            match plain {
                Some(p) => azcs_finish(p),
                None => Err(PakError::CodecError),
            }
        },
        CompressionTag::Other(_) => Err(PakError::UnsupportedCodec),
    }
}

// ---- codec laws ----

/// Law: codec identity. A stored entry whose payload does not open an AZCS
/// envelope decodes to exactly its payload. (A stored payload that does
/// begin with the AZCS magic is unwrapped instead, by design.)
pub proof fn lemma_codec_identity(declared: nat, p: Seq<u8>)
    requires
        declared == p.len(),
        !is_azcs_seq(p),
    ensures
        entry_decode(CompressionTag::Stored, declared, p) == Ok::<_, PakError>(p),
{
    if declared == 0 {
        assert(p =~= Seq::<u8>::empty());
    }
}

/// Law: double-wrap idempotence. Wrapping a payload in the codec's own
/// deflate form and decoding the result reproduces the payload exactly,
/// provided the payload does not itself open an AZCS envelope (which the
/// second layer would then unwrap).
pub fn deflate_wrap(p: &[u8]) -> (r: Vec<u8>)
    ensures
        r@ == zlib_of(p@),
        !is_azcs_seq(p@) ==> entry_decode(CompressionTag::Deflated, p@.len(), r@) == Ok::<
            _,
            PakError,
        >(p@),
{
    let z = zlib_compress_raw(p);
    proof {
        if !is_azcs_seq(p@) {
            if p@.len() == 0 {
                assert(p@ =~= Seq::<u8>::empty());
            } else {
                assert(deflate_decode(z@) == zlib_inflate(z@));
            }
        }
    }
    z
}


/// Law: a raw DEFLATE stream whose first two bytes are not the zlib
/// best-compression header decodes through the raw arm of the sniff, so
/// any payload it encodes comes back exactly, AZCS unwrap aside. This
/// holds of whatever produced the stream; the codec's own wrap, which is
/// always zlib-headed, is covered by [`deflate_wrap`].
pub proof fn lemma_deflate_raw_decode(p: Seq<u8>, z: Seq<u8>)
    requires
        raw_inflate(z) == Some(p),
        !(z.len() >= 2 && z[0] == 0x78 && z[1] == 0xda),
        !is_azcs_seq(p),
        p.len() > 0,
    ensures
        entry_decode(CompressionTag::Deflated, p.len(), z) == Ok::<_, PakError>(p),
{
    assert(deflate_decode(z) == raw_inflate(z));
}

} // verus!
