//! The classifier: assigns a payload kind to a decoded buffer by sniffing
//! its leading bytes, falling back to the filename suffix. Rules are tried
//! top to bottom; the first match wins.
use vstd::prelude::*;

use crate::bytes::{has_prefix, has_suffix, starts_with_bytes, ends_with_bytes};

verus! {

/// The payload variant of one fully-decompressed archive entry.
#[derive(Clone, Copy, PartialEq, Eq, Structural, Debug)]
pub enum PayloadKind {
    ScriptBytecode,
    ObjectStream,
    Datasheet,
    Distribution,
    Opaque,
}

pub open spec fn luac_magic() -> Seq<u8> {
    seq![0x04u8, 0x00, 0x1b, 0x4c, 0x75]
}

pub open spec fn object_stream_magic() -> Seq<u8> {
    seq![0x00u8, 0x00, 0x00, 0x00, 0x03]
}

pub open spec fn datasheet_magic() -> Seq<u8> {
    seq![0x11u8, 0x00, 0x00, 0x00]
}

pub open spec fn distribution_suffix() -> Seq<u8> {
    seq![0x2eu8, 0x64, 0x69, 0x73, 0x74, 0x72, 0x69, 0x62, 0x75, 0x74, 0x69, 0x6f, 0x6e]
}

/// Classification is a pure, total function of the buffer prefix and the
/// filename suffix.
pub open spec fn classify_spec(buf: Seq<u8>, name: Seq<u8>) -> PayloadKind {
    if has_prefix(buf, luac_magic()) {
        PayloadKind::ScriptBytecode
    } else if has_prefix(buf, object_stream_magic()) {
        PayloadKind::ObjectStream
    } else if has_prefix(buf, datasheet_magic()) {
        PayloadKind::Datasheet
    } else if has_suffix(name, distribution_suffix()) {
        PayloadKind::Distribution
    } else {
        PayloadKind::Opaque
    }
}

pub fn classify(buf: &[u8], name: &[u8]) -> (r: PayloadKind)
    ensures
        r == classify_spec(buf@, name@),
{
    let luac: [u8; 5] = [0x04, 0x00, 0x1b, 0x4c, 0x75];
    let osm: [u8; 5] = [0x00, 0x00, 0x00, 0x00, 0x03];
    let dsm: [u8; 4] = [0x11, 0x00, 0x00, 0x00];
    let dist: [u8; 13] = [
        0x2e,
        0x64,
        0x69,
        0x73,
        0x74,
        0x72,
        0x69,
        0x62,
        0x75,
        0x74,
        0x69,
        0x6f,
        0x6e,
    ];
    assert(luac@ =~= luac_magic());
    assert(osm@ =~= object_stream_magic());
    assert(dsm@ =~= datasheet_magic());
    assert(dist@ =~= distribution_suffix());
    if starts_with_bytes(buf, luac.as_slice()) {
        PayloadKind::ScriptBytecode
    } else if starts_with_bytes(buf, osm.as_slice()) {
        PayloadKind::ObjectStream
    } else if starts_with_bytes(buf, dsm.as_slice()) {
        PayloadKind::Datasheet
    } else if ends_with_bytes(name, dist.as_slice()) {
        PayloadKind::Distribution
    } else {
        PayloadKind::Opaque
    }
}

/// Law: the classifier is total, and for any buffer and filename exactly one
/// rule applies — the first in the stated order whose condition holds. The
/// equivalences below pin each outcome to its condition, so the five
/// outcomes cover all inputs and exclude one another.
pub proof fn lemma_classifier_total(buf: Seq<u8>, name: Seq<u8>)
    ensures
        (classify_spec(buf, name) == PayloadKind::ScriptBytecode) <==> has_prefix(
            buf,
            luac_magic(),
        ),
        (classify_spec(buf, name) == PayloadKind::ObjectStream) <==> (!has_prefix(
            buf,
            luac_magic(),
        ) && has_prefix(buf, object_stream_magic())),
        (classify_spec(buf, name) == PayloadKind::Datasheet) <==> (!has_prefix(buf, luac_magic())
            && !has_prefix(buf, object_stream_magic()) && has_prefix(buf, datasheet_magic())),
        (classify_spec(buf, name) == PayloadKind::Distribution) <==> (!has_prefix(
            buf,
            luac_magic(),
        ) && !has_prefix(buf, object_stream_magic()) && !has_prefix(buf, datasheet_magic())
            && has_suffix(name, distribution_suffix())),
        (classify_spec(buf, name) == PayloadKind::Opaque) <==> (!has_prefix(buf, luac_magic())
            && !has_prefix(buf, object_stream_magic()) && !has_prefix(buf, datasheet_magic())
            && !has_suffix(name, distribution_suffix())),
{
}

/// The three magic prefixes are pairwise incompatible: no buffer carries two
/// of them, so the order of the first three rules never decides the outcome;
/// only the filename rule depends on its place in the order.
pub proof fn lemma_magic_prefixes_disjoint(buf: Seq<u8>)
    ensures
        !(has_prefix(buf, luac_magic()) && has_prefix(buf, object_stream_magic())),
        !(has_prefix(buf, luac_magic()) && has_prefix(buf, datasheet_magic())),
        !(has_prefix(buf, object_stream_magic()) && has_prefix(buf, datasheet_magic())),
{
    if has_prefix(buf, luac_magic()) && has_prefix(buf, object_stream_magic()) {
        assert(buf.take(5)[0] == 0x04u8);
        assert(buf.take(5)[0] == 0x00u8);
    }
    if has_prefix(buf, luac_magic()) && has_prefix(buf, datasheet_magic()) {
        assert(buf.take(5)[0] == 0x04u8);
        assert(buf.take(4)[0] == 0x11u8);
        assert(buf[0] == 0x04u8 && buf[0] == 0x11u8);
    }
    if has_prefix(buf, object_stream_magic()) && has_prefix(buf, datasheet_magic()) {
        assert(buf.take(5)[0] == 0x00u8);
        assert(buf.take(4)[0] == 0x11u8);
        assert(buf[0] == 0x00u8 && buf[0] == 0x11u8);
    }
}

} // verus!
