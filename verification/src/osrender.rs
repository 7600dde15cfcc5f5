//! Serializers for parsed object streams: XML (tab-indented) and JSON in
//! compact and indented form. Element and key names come from the hash
//! dictionary; an unresolved hash renders as eight hex digits.
use vstd::prelude::*;

use crate::bytes::{hex32, hex32_text, int_text, push_bytes, i64_text};
use crate::dsrender::nlind;
use crate::escape::{json_escape, push_json_escaped, push_spaces, push_tabs, push_xml_escaped, tabs, xml_escape};
use crate::object_stream::{OsNode, OsNodeV, OsValue, OsValueV};
use crate::tables::{dict_entries, HashDictionary};

verus! {

/// The contents the renderers see of an optional hash dictionary.
pub open spec fn dict_view(dict: Option<&HashDictionary>) -> Map<u32, Seq<u8>> {
    match dict {
        Some(d) => dict_entries(*d),
        None => Map::empty(),
    }
}

/// The readable name of a hash: its dictionary entry, or its hex digits.
pub open spec fn resolve(h: int, dict: Map<u32, Seq<u8>>) -> Seq<u8> {
    if dict.dom().contains(h as u32) {
        dict[h as u32]
    } else {
        hex32(h as u32)
    }
}

fn resolve_exec(h: u32, dict: Option<&HashDictionary>) -> (r: Vec<u8>)
    ensures
        r@ == resolve(h as int, dict_view(dict)),
{
    match dict {
        Some(d) => match d.get(h) {
            Some(v) => v,
            None => hex32_text(h),
        },
        None => hex32_text(h),
    }
}

/// Caps an indentation depth so that deeper nesting indents no further.
pub open spec fn bump(depth: int) -> int {
    if depth >= 0xffff {
        0xffff
    } else {
        depth + 1
    }
}

fn bump_exec(depth: usize) -> (r: usize)
    requires
        depth <= 0xffff,
    ensures
        r as int == bump(depth as int),
        r <= 0xffff,
{
    if depth >= 0xffff {
        0xffff
    } else {
        depth + 1
    }
}

// ---- XML ----

pub open spec fn nl_tabs(depth: int) -> Seq<u8> {
    seq![0x0au8] + tabs(2 * depth)
}

pub open spec fn lit_type_attr() -> Seq<u8> {
    seq![0x20u8, 0x74, 0x79, 0x70, 0x65, 0x3d, 0x22]
}

pub open spec fn lit_value_attr() -> Seq<u8> {
    seq![0x20u8, 0x76, 0x61, 0x6c, 0x75, 0x65, 0x3d, 0x22]
}

pub open spec fn lit_os_open() -> Seq<u8> {
    seq![0x3cu8, 0x4f, 0x62, 0x6a, 0x65, 0x63, 0x74, 0x53, 0x74, 0x72, 0x65, 0x61, 0x6d, 0x3e]
}

pub open spec fn lit_os_close() -> Seq<u8> {
    seq![
        0x3cu8,
        0x2f,
        0x4f,
        0x62,
        0x6a,
        0x65,
        0x63,
        0x74,
        0x53,
        0x74,
        0x72,
        0x65,
        0x61,
        0x6d,
        0x3e,
    ]
}

/// The element name of a node: its resolved member name, or for a root
/// its resolved type name.
pub open spec fn elem_name(n: OsNodeV, dict: Map<u32, Seq<u8>>) -> Seq<u8> {
    match n.member {
        Some(m) => resolve(m, dict),
        None => resolve(n.type_hash, dict),
    }
}

/// The value attribute: absent for an empty value, otherwise the value's
/// text, XML-escaped for strings.
pub open spec fn xml_value_attr(v: OsValueV) -> Seq<u8> {
    match v {
        OsValueV::Empty => Seq::empty(),
        OsValueV::Int(x) => lit_value_attr() + int_text(x) + seq![0x22u8],
        OsValueV::Str(s) => lit_value_attr() + xml_escape(s) + seq![0x22u8],
    }
}

/// XML text of one node: on its own line, indented two tabs per level;
/// childless nodes self-close.
pub open spec fn xml_node(n: OsNodeV, dict: Map<u32, Seq<u8>>, depth: int) -> Seq<u8>
    decreases n, 0int,
{
    nl_tabs(depth) + seq![0x3cu8] + elem_name(n, dict) + lit_type_attr() + hex32(
        n.type_hash as u32,
    ) + seq![0x22u8] + xml_value_attr(n.value) + (if n.children.len() == 0 {
        seq![0x2fu8, 0x3e]
    } else {
        seq![0x3eu8] + xml_children(n.children, dict, bump(depth), 0) + nl_tabs(depth) + seq![
            0x3cu8,
            0x2f,
        ] + elem_name(n, dict) + seq![0x3eu8]
    })
}

pub open spec fn xml_children(
    ch: Seq<OsNodeV>,
    dict: Map<u32, Seq<u8>>,
    depth: int,
    k: int,
) -> Seq<u8>
    decreases ch, ch.len() - k,
{
    if k < 0 || k >= ch.len() {
        Seq::empty()
    } else {
        xml_node(ch[k], dict, depth) + xml_children(ch, dict, depth, k + 1)
    }
}

/// XML text of a whole stream: the root nodes inside an ObjectStream
/// element.
pub open spec fn xml_text(roots: Seq<OsNodeV>, dict: Map<u32, Seq<u8>>) -> Seq<u8> {
    lit_os_open() + xml_children(roots, dict, 1, 0) + seq![0x0au8] + lit_os_close()
}

/// Appends a node's opening through its attributes, returning the
/// element name for the closing tag.
fn push_xml_head(
    out: &mut Vec<u8>,
    n: &OsNode,
    dict: Option<&HashDictionary>,
    depth: usize,
) -> (name: Vec<u8>)
    requires
        depth <= 0xffff,
    ensures
        name@ == elem_name(n@, dict_view(dict)),
        final(out)@ == old(out)@ + (nl_tabs(depth as int) + seq![0x3cu8] + elem_name(
            n@,
            dict_view(dict),
        ) + lit_type_attr() + hex32(n@.type_hash as u32) + seq![0x22u8] + xml_value_attr(n@.value)),
{
    out.push(0x0a);
    push_tabs(out, 2 * depth);
    out.push(0x3c);
    let name = match n.member {
        Some(m) => resolve_exec(m, dict),
        None => resolve_exec(n.type_hash, dict),
    };
    assert(name@ == elem_name(n@, dict_view(dict)));
    push_bytes(out, name.as_slice());
    let tattr: [u8; 7] = [0x20, 0x74, 0x79, 0x70, 0x65, 0x3d, 0x22];
    assert(tattr@ =~= lit_type_attr());
    push_bytes(out, tattr.as_slice());
    let hx = hex32_text(n.type_hash);
    push_bytes(out, hx.as_slice());
    out.push(0x22);
    let ghost h1 = out@;
    assert(h1 =~= old(out)@ + (nl_tabs(depth as int) + seq![0x3cu8] + elem_name(
        n@,
        dict_view(dict),
    ) + lit_type_attr() + hex32(n@.type_hash as u32) + seq![0x22u8]));
    match &n.value {
        OsValue::Empty => {},
        OsValue::Int(x) => {
            let vattr: [u8; 8] = [0x20, 0x76, 0x61, 0x6c, 0x75, 0x65, 0x3d, 0x22];
            assert(vattr@ =~= lit_value_attr());
            push_bytes(out, vattr.as_slice());
            let t = i64_text(*x as i64);
            push_bytes(out, t.as_slice());
            out.push(0x22);
        },
        OsValue::Str(s) => {
            let vattr: [u8; 8] = [0x20, 0x76, 0x61, 0x6c, 0x75, 0x65, 0x3d, 0x22];
            assert(vattr@ =~= lit_value_attr());
            push_bytes(out, vattr.as_slice());
            push_xml_escaped(out, s.as_slice());
            out.push(0x22);
        },
    }
    assert(out@ =~= h1 + xml_value_attr(n@.value));
    assert(out@ =~= old(out)@ + (nl_tabs(depth as int) + seq![0x3cu8] + elem_name(
        n@,
        dict_view(dict),
    ) + lit_type_attr() + hex32(n@.type_hash as u32) + seq![0x22u8] + xml_value_attr(n@.value)));
    name
}

#[verifier::rlimit(100)]
fn push_xml_node(out: &mut Vec<u8>, n: &OsNode, dict: Option<&HashDictionary>, depth: usize)
    requires
        depth <= 0xffff,
    ensures
        final(out)@ == old(out)@ + xml_node(n@, dict_view(dict), depth as int),
    decreases *n, 0int,
{
    let name = push_xml_head(out, n, dict, depth);
    let ghost head = out@;
    if n.children.len() == 0 {
        out.push(0x2f);
        out.push(0x3e);
        proof {
            assert(n@.children.len() == 0);
            assert(out@ =~= old(out)@ + xml_node(n@, dict_view(dict), depth as int));
        }
        return ;
    }
    out.push(0x3e);
    let d2 = bump_exec(depth);
    let ghost body0 = out@;
    let mut k: usize = 0;
    while k < n.children.len()
        invariant
            k <= n.children@.len(),
            depth <= 0xffff,
            d2 <= 0xffff,
            d2 as int == bump(depth as int),
            body0 + xml_children(n@.children, dict_view(dict), d2 as int, 0) == out@ + xml_children(
                n@.children,
                dict_view(dict),
                d2 as int,
                k as int,
            ),
        decreases n.children@.len() - k,
    {
        let ghost o0 = out@;
        push_xml_node(out, &n.children[k], dict, d2);
        proof {
            assert(n@.children[k as int] == n.children@[k as int]@);
            let item = xml_node(n@.children[k as int], dict_view(dict), d2 as int);
            assert(out@ =~= o0 + item);
            assert(o0 + (item + xml_children(n@.children, dict_view(dict), d2 as int, k as int + 1))
                =~= (o0 + item) + xml_children(n@.children, dict_view(dict), d2 as int, k as int
                + 1));
        }
        k = k + 1;
    }
    proof {
        assert(xml_children(n@.children, dict_view(dict), d2 as int, k as int)
            =~= Seq::<u8>::empty());
        assert(out@ =~= body0 + xml_children(n@.children, dict_view(dict), d2 as int, 0));
    }
    out.push(0x0a);
    push_tabs(out, 2 * depth);
    out.push(0x3c);
    out.push(0x2f);
    push_bytes(out, name.as_slice());
    out.push(0x3e);
    proof {
        assert(n@.children.len() > 0);
        assert(out@ =~= old(out)@ + xml_node(n@, dict_view(dict), depth as int));
    }
}

/// Renders a parsed object stream as XML.
pub fn render_os_xml(roots: &Vec<OsNode>, dict: Option<&HashDictionary>) -> (r: Vec<u8>)
    ensures
        r@ == xml_text(roots@.map_values(|c: OsNode| crate::object_stream::node_view(c)), dict_view(dict)),
{
    let ghost rootsv = roots@.map_values(|c: OsNode| crate::object_stream::node_view(c));
    let mut out: Vec<u8> = Vec::new();
    let open: [u8; 14] = [
        0x3c,
        0x4f,
        0x62,
        0x6a,
        0x65,
        0x63,
        0x74,
        0x53,
        0x74,
        0x72,
        0x65,
        0x61,
        0x6d,
        0x3e,
    ];
    assert(open@ =~= lit_os_open());
    push_bytes(&mut out, open.as_slice());
    let ghost pre = out@;
    let mut k: usize = 0;
    while k < roots.len()
        invariant
            k <= roots@.len(),
            rootsv == roots@.map_values(|c: OsNode| crate::object_stream::node_view(c)),
            pre + xml_children(rootsv, dict_view(dict), 1, 0) == out@ + xml_children(
                rootsv,
                dict_view(dict),
                1,
                k as int,
            ),
        decreases roots@.len() - k,
    {
        let ghost o0 = out@;
        push_xml_node(&mut out, &roots[k], dict, 1);
        proof {
            assert(rootsv[k as int] == roots@[k as int]@);
            let item = xml_node(rootsv[k as int], dict_view(dict), 1);
            assert(out@ =~= o0 + item);
            assert(o0 + (item + xml_children(rootsv, dict_view(dict), 1, k as int + 1)) =~= (o0
                + item) + xml_children(rootsv, dict_view(dict), 1, k as int + 1));
        }
        k = k + 1;
    }
    proof {
        assert(xml_children(rootsv, dict_view(dict), 1, k as int) =~= Seq::<u8>::empty());
        assert(out@ =~= pre + xml_children(rootsv, dict_view(dict), 1, 0));
    }
    out.push(0x0a);
    let close: [u8; 15] = [
        0x3c,
        0x2f,
        0x4f,
        0x62,
        0x6a,
        0x65,
        0x63,
        0x74,
        0x53,
        0x74,
        0x72,
        0x65,
        0x61,
        0x6d,
        0x3e,
    ];
    assert(close@ =~= lit_os_close());
    push_bytes(&mut out, close.as_slice());
    assert(out@ =~= xml_text(rootsv, dict_view(dict)));
    out
}


// ---- JSON ----

pub open spec fn lit_key_type() -> Seq<u8> {
    seq![0x22u8, 0x74, 0x79, 0x70, 0x65, 0x22, 0x3a]
}

pub open spec fn lit_key_name() -> Seq<u8> {
    seq![0x22u8, 0x6e, 0x61, 0x6d, 0x65, 0x22, 0x3a]
}

pub open spec fn lit_key_value() -> Seq<u8> {
    seq![0x22u8, 0x76, 0x61, 0x6c, 0x75, 0x65, 0x22, 0x3a]
}

pub open spec fn lit_key_children() -> Seq<u8> {
    seq![0x22u8, 0x63, 0x68, 0x69, 0x6c, 0x64, 0x72, 0x65, 0x6e, 0x22, 0x3a]
}

pub open spec fn sp(pretty: bool) -> Seq<u8> {
    if pretty {
        seq![0x20u8]
    } else {
        Seq::empty()
    }
}

/// JSON value of a node's value: null, a number, or a quoted escaped
/// string.
pub open spec fn os_json_value(v: OsValueV) -> Seq<u8> {
    match v {
        OsValueV::Empty => seq![0x6eu8, 0x75, 0x6c, 0x6c],
        OsValueV::Int(x) => int_text(x),
        OsValueV::Str(s) => seq![0x22u8] + json_escape(s) + seq![0x22u8],
    }
}

/// The opening of a node's object: brace and the type member.
pub open spec fn js_type_part(n: OsNodeV, pretty: bool, d1: int) -> Seq<u8> {
    seq![0x7bu8] + nlind(pretty, d1) + lit_key_type() + sp(pretty) + seq![0x22u8] + hex32(
        n.type_hash as u32,
    ) + seq![0x22u8]
}

/// The name member, present only when the node carries a member hash.
pub open spec fn js_name_part(n: OsNodeV, dict: Map<u32, Seq<u8>>, pretty: bool, d1: int) -> Seq<
    u8,
> {
    match n.member {
        Some(m) => seq![0x2cu8] + nlind(pretty, d1) + lit_key_name() + sp(pretty) + seq![0x22u8]
            + json_escape(resolve(m, dict)) + seq![0x22u8],
        None => Seq::empty(),
    }
}

/// The value member.
pub open spec fn js_value_part(n: OsNodeV, pretty: bool, d1: int) -> Seq<u8> {
    seq![0x2cu8] + nlind(pretty, d1) + lit_key_value() + sp(pretty) + os_json_value(n.value)
}

/// The children key, up to its value.
pub open spec fn js_children_key(pretty: bool, d1: int) -> Seq<u8> {
    seq![0x2cu8] + nlind(pretty, d1) + lit_key_children() + sp(pretty)
}

/// JSON text of one node: an object with its type's hex digits, the
/// resolved member name for non-roots, the value, and the children in
/// file order.
pub open spec fn os_json_node(n: OsNodeV, dict: Map<u32, Seq<u8>>, pretty: bool, depth: int) -> Seq<
    u8,
>
    decreases n, 0int,
{
    let d1 = bump(depth);
    js_type_part(n, pretty, d1) + js_name_part(n, dict, pretty, d1) + js_value_part(n, pretty, d1)
        + js_children_key(pretty, d1) + (if n.children.len() == 0 {
        seq![0x5bu8, 0x5d]
    } else {
        seq![0x5bu8] + os_json_kids(n.children, dict, pretty, bump(d1), 0) + nlind(pretty, d1)
            + seq![0x5du8]
    }) + nlind(pretty, depth) + seq![0x7du8]
}

pub open spec fn os_json_kids(
    ch: Seq<OsNodeV>,
    dict: Map<u32, Seq<u8>>,
    pretty: bool,
    depth: int,
    k: int,
) -> Seq<u8>
    decreases ch, ch.len() - k,
{
    if k < 0 || k >= ch.len() {
        Seq::empty()
    } else {
        (if k > 0 {
            seq![0x2cu8]
        } else {
            Seq::empty()
        }) + nlind(pretty, depth) + os_json_node(ch[k], dict, pretty, depth) + os_json_kids(
            ch,
            dict,
            pretty,
            depth,
            k + 1,
        )
    }
}

/// JSON text of a whole stream: the list of root nodes.
pub open spec fn os_json_text(
    roots: Seq<OsNodeV>,
    dict: Map<u32, Seq<u8>>,
    pretty: bool,
) -> Seq<u8> {
    if roots.len() == 0 {
        seq![0x5bu8, 0x5d]
    } else {
        seq![0x5bu8] + os_json_kids(roots, dict, pretty, 1, 0) + nlind(pretty, 0) + seq![0x5du8]
    }
}

fn push_nlind_deep(out: &mut Vec<u8>, pretty: bool, depth: usize)
    requires
        depth <= 0x10000,
    ensures
        final(out)@ == old(out)@ + nlind(pretty, depth as int),
{
    if pretty {
        out.push(0x0a);
        push_spaces(out, 2 * depth);
        assert(out@ =~= old(out)@ + nlind(pretty, depth as int));
    }
    assert(out@ =~= old(out)@ + nlind(pretty, depth as int));
}

fn push_js_type_part(out: &mut Vec<u8>, n: &OsNode, pretty: bool, d1: usize)
    requires
        d1 <= 0xffff,
    ensures
        final(out)@ == old(out)@ + js_type_part(n@, pretty, d1 as int),
{
    out.push(0x7b);
    push_nlind_deep(out, pretty, d1);
    let kt: [u8; 7] = [0x22, 0x74, 0x79, 0x70, 0x65, 0x22, 0x3a];
    assert(kt@ =~= lit_key_type());
    push_bytes(out, kt.as_slice());
    if pretty {
        out.push(0x20);
    }
    out.push(0x22);
    let hx = hex32_text(n.type_hash);
    push_bytes(out, hx.as_slice());
    out.push(0x22);
    assert(out@ =~= old(out)@ + js_type_part(n@, pretty, d1 as int));
}

fn push_js_name_part(
    out: &mut Vec<u8>,
    n: &OsNode,
    dict: Option<&HashDictionary>,
    pretty: bool,
    d1: usize,
)
    requires
        d1 <= 0xffff,
    ensures
        final(out)@ == old(out)@ + js_name_part(n@, dict_view(dict), pretty, d1 as int),
{
    match n.member {
        Some(m) => {
            out.push(0x2c);
            push_nlind_deep(out, pretty, d1);
            let kn: [u8; 7] = [0x22, 0x6e, 0x61, 0x6d, 0x65, 0x22, 0x3a];
            assert(kn@ =~= lit_key_name());
            push_bytes(out, kn.as_slice());
            if pretty {
                out.push(0x20);
            }
            out.push(0x22);
            let nm = resolve_exec(m, dict);
            push_json_escaped(out, nm.as_slice());
            out.push(0x22);
            assert(out@ =~= old(out)@ + js_name_part(n@, dict_view(dict), pretty, d1 as int));
        },
        None => {
            assert(out@ =~= old(out)@ + js_name_part(n@, dict_view(dict), pretty, d1 as int));
        },
    }
}

fn push_js_value_part(out: &mut Vec<u8>, n: &OsNode, pretty: bool, d1: usize)
    requires
        d1 <= 0xffff,
    ensures
        final(out)@ == old(out)@ + js_value_part(n@, pretty, d1 as int),
{
    out.push(0x2c);
    push_nlind_deep(out, pretty, d1);
    let kv: [u8; 8] = [0x22, 0x76, 0x61, 0x6c, 0x75, 0x65, 0x22, 0x3a];
    assert(kv@ =~= lit_key_value());
    push_bytes(out, kv.as_slice());
    if pretty {
        out.push(0x20);
    }
    match &n.value {
        OsValue::Empty => {
            out.push(0x6e);
            out.push(0x75);
            out.push(0x6c);
            out.push(0x6c);
        },
        OsValue::Int(x) => {
            let t = i64_text(*x as i64);
            push_bytes(out, t.as_slice());
        },
        OsValue::Str(svec) => {
            out.push(0x22);
            push_json_escaped(out, svec.as_slice());
            out.push(0x22);
        },
    }
    assert(out@ =~= old(out)@ + js_value_part(n@, pretty, d1 as int));
}

fn push_js_children_key(out: &mut Vec<u8>, pretty: bool, d1: usize)
    requires
        d1 <= 0xffff,
    ensures
        final(out)@ == old(out)@ + js_children_key(pretty, d1 as int),
{
    out.push(0x2c);
    push_nlind_deep(out, pretty, d1);
    let kc: [u8; 11] = [0x22, 0x63, 0x68, 0x69, 0x6c, 0x64, 0x72, 0x65, 0x6e, 0x22, 0x3a];
    assert(kc@ =~= lit_key_children());
    push_bytes(out, kc.as_slice());
    if pretty {
        out.push(0x20);
    }
    assert(out@ =~= old(out)@ + js_children_key(pretty, d1 as int));
}

/// Appends everything of a node's object up to and including the
/// children key.
fn push_os_json_head(
    out: &mut Vec<u8>,
    n: &OsNode,
    dict: Option<&HashDictionary>,
    pretty: bool,
    d1: usize,
)
    requires
        d1 <= 0xffff,
    ensures
        final(out)@ == old(out)@ + (js_type_part(n@, pretty, d1 as int) + js_name_part(
            n@,
            dict_view(dict),
            pretty,
            d1 as int,
        ) + js_value_part(n@, pretty, d1 as int) + js_children_key(pretty, d1 as int)),
{
    push_js_type_part(out, n, pretty, d1);
    push_js_name_part(out, n, dict, pretty, d1);
    push_js_value_part(out, n, pretty, d1);
    push_js_children_key(out, pretty, d1);
    assert(out@ =~= old(out)@ + (js_type_part(n@, pretty, d1 as int) + js_name_part(
        n@,
        dict_view(dict),
        pretty,
        d1 as int,
    ) + js_value_part(n@, pretty, d1 as int) + js_children_key(pretty, d1 as int)));
}

#[verifier::rlimit(100)]
fn push_os_json_node(
    out: &mut Vec<u8>,
    n: &OsNode,
    dict: Option<&HashDictionary>,
    pretty: bool,
    depth: usize,
)
    requires
        depth <= 0xffff,
    ensures
        final(out)@ == old(out)@ + os_json_node(n@, dict_view(dict), pretty, depth as int),
    decreases *n, 0int,
{
    let d1 = bump_exec(depth);
    push_os_json_head(out, n, dict, pretty, d1);
    let ghost head = out@;
    if n.children.len() == 0 {
        out.push(0x5b);
        out.push(0x5d);
        push_nlind_deep(out, pretty, depth);
        out.push(0x7d);
        proof {
            assert(n@.children.len() == 0);
            assert(out@ =~= old(out)@ + os_json_node(n@, dict_view(dict), pretty, depth as int));
        }
        return ;
    }
    out.push(0x5b);
    let d2 = bump_exec(d1);
    let ghost body0 = out@;
    let mut k: usize = 0;
    while k < n.children.len()
        invariant
            k <= n.children@.len(),
            depth <= 0xffff,
            d1 <= 0xffff,
            d2 <= 0xffff,
            d1 as int == bump(depth as int),
            d2 as int == bump(d1 as int),
            body0 + os_json_kids(n@.children, dict_view(dict), pretty, d2 as int, 0) == out@
                + os_json_kids(n@.children, dict_view(dict), pretty, d2 as int, k as int),
        decreases n.children@.len() - k,
    {
        let ghost o0 = out@;
        if k > 0 {
            out.push(0x2c);
        }
        push_nlind_deep(out, pretty, d2);
        push_os_json_node(out, &n.children[k], dict, pretty, d2);
        proof {
            assert(n@.children[k as int] == n.children@[k as int]@);
            let item = (if k > 0 {
                seq![0x2cu8]
            } else {
                Seq::<u8>::empty()
            }) + nlind(pretty, d2 as int) + os_json_node(
                n@.children[k as int],
                dict_view(dict),
                pretty,
                d2 as int,
            );
            assert(out@ =~= o0 + item);
            assert(o0 + (item + os_json_kids(
                n@.children,
                dict_view(dict),
                pretty,
                d2 as int,
                k as int + 1,
            )) =~= (o0 + item) + os_json_kids(
                n@.children,
                dict_view(dict),
                pretty,
                d2 as int,
                k as int + 1,
            ));
        }
        k = k + 1;
    }
    proof {
        assert(os_json_kids(n@.children, dict_view(dict), pretty, d2 as int, k as int)
            =~= Seq::<u8>::empty());
        assert(out@ =~= body0 + os_json_kids(n@.children, dict_view(dict), pretty, d2 as int, 0));
    }
    push_nlind_deep(out, pretty, d1);
    out.push(0x5d);
    push_nlind_deep(out, pretty, depth);
    out.push(0x7d);
    proof {
        assert(n@.children.len() > 0);
        assert(out@ =~= old(out)@ + os_json_node(n@, dict_view(dict), pretty, depth as int));
    }
}

/// Renders a parsed object stream as JSON, compact or indented.
pub fn render_os_json(roots: &Vec<OsNode>, dict: Option<&HashDictionary>, pretty: bool) -> (r: Vec<
    u8,
>)
    ensures
        r@ == os_json_text(
            roots@.map_values(|c: OsNode| crate::object_stream::node_view(c)),
            dict_view(dict),
            pretty,
        ),
{
    let ghost rootsv = roots@.map_values(|c: OsNode| crate::object_stream::node_view(c));
    let mut out: Vec<u8> = Vec::new();
    if roots.len() == 0 {
        out.push(0x5b);
        out.push(0x5d);
        assert(out@ =~= os_json_text(rootsv, dict_view(dict), pretty));
        return out;
    }
    out.push(0x5b);
    let ghost pre = out@;
    let mut k: usize = 0;
    while k < roots.len()
        invariant
            k <= roots@.len(),
            rootsv == roots@.map_values(|c: OsNode| crate::object_stream::node_view(c)),
            pre + os_json_kids(rootsv, dict_view(dict), pretty, 1, 0) == out@ + os_json_kids(
                rootsv,
                dict_view(dict),
                pretty,
                1,
                k as int,
            ),
        decreases roots@.len() - k,
    {
        let ghost o0 = out@;
        if k > 0 {
            out.push(0x2c);
        }
        push_nlind_deep(&mut out, pretty, 1);
        push_os_json_node(&mut out, &roots[k], dict, pretty, 1);
        proof {
            assert(rootsv[k as int] == roots@[k as int]@);
            let item = (if k > 0 {
                seq![0x2cu8]
            } else {
                Seq::<u8>::empty()
            }) + nlind(pretty, 1) + os_json_node(rootsv[k as int], dict_view(dict), pretty, 1);
            assert(out@ =~= o0 + item);
            assert(o0 + (item + os_json_kids(rootsv, dict_view(dict), pretty, 1, k as int + 1))
                =~= (o0 + item) + os_json_kids(rootsv, dict_view(dict), pretty, 1, k as int + 1));
        }
        k = k + 1;
    }
    proof {
        assert(os_json_kids(rootsv, dict_view(dict), pretty, 1, k as int) =~= Seq::<u8>::empty());
        assert(out@ =~= pre + os_json_kids(rootsv, dict_view(dict), pretty, 1, 0));
    }
    push_nlind_deep(&mut out, pretty, 0);
    out.push(0x5d);
    assert(out@ =~= os_json_text(rootsv, dict_view(dict), pretty));
    out
}

} // verus!
