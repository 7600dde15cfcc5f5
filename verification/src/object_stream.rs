//! The object-stream decoder: parses the engine's binary serialization of
//! object graphs and renders it as XML or JSON.
//!
//! Wire shape, after the five-byte magic and a 32-bit root count: each
//! node carries a 32-bit type-id hash, for non-root nodes a 32-bit
//! member-name hash, a tagged value (0 none, 1 a 32-bit integer, 2 a
//! length-prefixed byte string), and a 32-bit child count followed by
//! that many child nodes in order. Hashes are resolved through the
//! optional hash dictionary; an unresolved hash renders as eight hex
//! digits.
use vstd::prelude::*;

use crate::bytes::{has_prefix, le32_at, push_bytes, read_le32};
use crate::classify::object_stream_magic;
use crate::datasheet::as_i32;
use crate::error::PakError;

verus! {

/// The value one node carries.
#[derive(Debug)]
pub enum OsValue {
    Empty,
    Int(i32),
    Str(Vec<u8>),
}

/// Mathematical value of a node's value.
pub enum OsValueV {
    Empty,
    Int(int),
    Str(Seq<u8>),
}

impl View for OsValue {
    type V = OsValueV;

    open spec fn view(&self) -> OsValueV {
        match self {
            OsValue::Empty => OsValueV::Empty,
            OsValue::Int(v) => OsValueV::Int(*v as int),
            OsValue::Str(s) => OsValueV::Str(s@),
        }
    }
}

/// One node of a parsed object stream.
#[derive(Debug)]
pub struct OsNode {
    pub type_hash: u32,
    /// The member-name hash; roots have none.
    pub member: Option<u32>,
    pub value: OsValue,
    pub children: Vec<OsNode>,
}

/// Mathematical value of a node.
pub struct OsNodeV {
    pub type_hash: int,
    pub member: Option<int>,
    pub value: OsValueV,
    pub children: Seq<OsNodeV>,
}

pub open spec fn node_view(n: OsNode) -> OsNodeV
    decreases n,
{
    OsNodeV {
        type_hash: n.type_hash as int,
        member: match n.member {
            Some(m) => Some(m as int),
            None => None,
        },
        value: n.value@,
        children: Seq::new(
            n.children@.len(),
            |i: int|
                if 0 <= i < n.children@.len() {
                    node_view(n.children@[i])
                } else {
                    arbitrary()
                },
        ),
    }
}

impl View for OsNode {
    type V = OsNodeV;

    open spec fn view(&self) -> OsNodeV {
        node_view(*self)
    }
}

// ---- parsing ----

/// Parses one node at `pos`; roots carry no member hash. Yields the node
/// and the position after it.
pub open spec fn os_parse_node(b: Seq<u8>, pos: int, root: bool) -> Option<(OsNodeV, int)>
    decreases b.len() - pos, 0int,
{
    let hdr: int = if root {
        4
    } else {
        8
    };
    if pos < 0 || pos + hdr + 1 > b.len() {
        None
    } else {
        let th = le32_at(b, pos);
        let member: Option<int> = if root {
            None
        } else {
            Some(le32_at(b, pos + 4))
        };
        let vtag = b[pos + hdr];
        let vpos = pos + hdr + 1;
        let val_end: Option<(OsValueV, int)> = if vtag == 0 {
            Some((OsValueV::Empty, vpos))
        } else if vtag == 1 {
            if vpos + 4 <= b.len() {
                Some((OsValueV::Int(as_i32(le32_at(b, vpos))), vpos + 4))
            } else {
                None
            }
        } else if vtag == 2 {
            if vpos + 4 <= b.len() && vpos + 4 + le32_at(b, vpos) <= b.len() {
                Some((OsValueV::Str(b.subrange(vpos + 4, vpos + 4 + le32_at(b, vpos))), vpos + 4
                    + le32_at(b, vpos)))
            } else {
                None
            }
        } else {
            None
        };
        match val_end {
            None => None,
            Some((v, p2)) => if p2 + 4 <= b.len() {
                let cnt = le32_at(b, p2);
                match os_parse_children(b, p2 + 4, cnt, false) {
                    None => None,
                    Some((ch, p3)) => Some(
                        (OsNodeV { type_hash: th, member, value: v, children: ch }, p3),
                    ),
                }
            } else {
                None
            },
        }
    }
}

/// Parses `n` consecutive nodes starting at `pos`.
pub open spec fn os_parse_children(b: Seq<u8>, pos: int, n: int, root: bool) -> Option<
    (Seq<OsNodeV>, int),
>
    decreases b.len() - pos, n,
{
    if pos < 0 || pos > b.len() {
        None
    } else if n <= 0 {
        Some((Seq::empty(), pos))
    } else {
        match os_parse_node(b, pos, root) {
            None => None,
            Some((nd, p2)) => if p2 <= pos || p2 > b.len() {
                None
            } else {
                match os_parse_children(b, p2, n - 1, root) {
                    None => None,
                    Some((rest, p3)) => Some((seq![nd] + rest, p3)),
                }
            },
        }
    }
}

/// What parsing an object-stream buffer must yield: the forest of root
/// nodes, for a buffer that opens with the magic, declares a root count,
/// and is consumed exactly; nothing for any other buffer.
pub open spec fn os_parse(b: Seq<u8>) -> Option<Seq<OsNodeV>> {
    if b.len() >= 9 && has_prefix(b, object_stream_magic()) {
        match os_parse_children(b, 9, le32_at(b, 5), true) {
            None => None,
            Some((roots, p)) => if p == b.len() {
                Some(roots)
            } else {
                None
            },
        }
    } else {
        None
    }
}

fn parse_node_exec(b: &[u8], pos: usize, root: bool) -> (r: Result<(OsNode, usize), PakError>)
    ensures
        match r {
            Ok(p) => os_parse_node(b@, pos as int, root) == Some((p.0@, p.1 as int)) && pos < p.1
                <= b@.len(),
            Err(e) => os_parse_node(b@, pos as int, root) is None && e == PakError::ParseError,
        },
    decreases b@.len() - pos, 0int,
{
    let hdr: usize = if root {
        4
    } else {
        8
    };
    if pos >= b.len() || hdr + 1 > b.len() - pos {
        return Err(PakError::ParseError);
    }
    let th = read_le32(b, pos);
    let member: Option<u32> = if root {
        None
    } else {
        Some(read_le32(b, pos + 4))
    };
    let vtag = b[pos + hdr];
    let vpos = pos + hdr + 1;
    let (value, p2): (OsValue, usize) = if vtag == 0 {
        (OsValue::Empty, vpos)
    } else if vtag == 1 {
        if 4 <= b.len() - vpos {
            let raw = read_le32(b, vpos);
            let wide: i64 = raw as i64;
            let v: i64 = if wide >= 0x80000000 {
                wide - 0x100000000
            } else {
                wide
            };
            (OsValue::Int(v as i32), vpos + 4)
        } else {
            return Err(PakError::ParseError);
        }
    } else if vtag == 2 {
        if 4 <= b.len() - vpos {
            let n = read_le32(b, vpos);
            if (n as usize) <= b.len() - vpos - 4 {
                let s = vstd::slice::slice_subrange(b, vpos + 4, vpos + 4 + n as usize);
                let mut sv: Vec<u8> = Vec::new();
                push_bytes(&mut sv, s);
                assert(sv@ =~= b@.subrange(
                    vpos as int + 4,
                    vpos as int + 4 + le32_at(b@, vpos as int),
                ));
                (OsValue::Str(sv), vpos + 4 + n as usize)
            } else {
                return Err(PakError::ParseError);
            }
        } else {
            return Err(PakError::ParseError);
        }
    } else {
        return Err(PakError::ParseError);
    };
    if 4 > b.len() - p2 {
        return Err(PakError::ParseError);
    }
    let cnt = read_le32(b, p2);
    match parse_children_exec(b, p2 + 4, cnt, false) {
        Ok((children, p3)) => {
            let node = OsNode { type_hash: th, member, value, children };
            proof {
                assert(node@.children =~= children@.map_values(|c: OsNode| node_view(c)));
            }
            Ok((node, p3))
        },
        Err(e) => Err(e),
    }
}

fn parse_children_exec(b: &[u8], pos: usize, n: u32, root: bool) -> (r: Result<
    (Vec<OsNode>, usize),
    PakError,
>)
    ensures
        match r {
            Ok(p) => os_parse_children(b@, pos as int, n as int, root) == Some(
                (p.0@.map_values(|c: OsNode| node_view(c)), p.1 as int),
            ) && pos <= p.1 <= b@.len(),
            Err(e) => os_parse_children(b@, pos as int, n as int, root) is None && e
                == PakError::ParseError,
        },
    decreases b@.len() - pos, n as int,
{
    if pos > b.len() {
        return Err(PakError::ParseError);
    }
    if n == 0 {
        let empty: Vec<OsNode> = Vec::new();
        proof {
            assert(empty@.map_values(|c: OsNode| node_view(c)) =~= Seq::<OsNodeV>::empty());
        }
        return Ok((empty, pos));
    }
    match parse_node_exec(b, pos, root) {
        Err(e) => Err(e),
        Ok((nd, p2)) => {
            match parse_children_exec(b, p2, n - 1, root) {
                Err(e) => Err(e),
                Ok((rest, p3)) => {
                    let mut out: Vec<OsNode> = Vec::new();
                    out.push(nd);
                    let mut rest2 = rest;
                    out.append(&mut rest2);
                    proof {
                        let f = |c: OsNode| node_view(c);
                        assert(out@.map_values(f) =~= seq![node_view(out@[0])] + out@.skip(
                            1,
                        ).map_values(f));
                        assert(out@.skip(1) =~= rest@);
                    }
                    Ok((out, p3))
                },
            }
        },
    }
}

/// Parses an object-stream buffer into its forest of root nodes.
///
/// Succeeds exactly on buffers the wire shape accepts whole; any other
/// buffer is rejected with `ParseError`.
pub fn parse_object_stream(b: &[u8]) -> (r: Result<Vec<OsNode>, PakError>)
    ensures
        r is Ok <==> os_parse(b@) is Some,
        match r {
            Ok(roots) => os_parse(b@) == Some(roots@.map_values(|c: OsNode| node_view(c))),
            Err(e) => e == PakError::ParseError,
        },
{
    if b.len() < 9 {
        return Err(PakError::ParseError);
    }
    let magic: [u8; 5] = [0x00, 0x00, 0x00, 0x00, 0x03];
    assert(magic@ =~= object_stream_magic());
    if !crate::bytes::starts_with_bytes(b, magic.as_slice()) {
        return Err(PakError::ParseError);
    }
    let cnt = read_le32(b, 5);
    match parse_children_exec(b, 9, cnt, true) {
        Err(e) => Err(e),
        Ok((roots, p)) => {
            if p == b.len() {
                Ok(roots)
            } else {
                Err(PakError::ParseError)
            }
        },
    }
}

} // verus!
