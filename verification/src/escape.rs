//! Shared text-building blocks for the serializers: per-byte escape
//! expansions, localization of string values, and whitespace for indented
//! output.
use vstd::prelude::*;

use crate::bytes::{hex_digit, push_bytes};
use crate::tables::{loc_entries, LocalizationMap};

verus! {

/// Expands every byte of `s` by `f` and concatenates the results.
pub open spec fn expand(s: Seq<u8>, f: spec_fn(u8) -> Seq<u8>) -> Seq<u8>
    decreases s.len(),
{
    if s.len() == 0 {
        Seq::empty()
    } else {
        f(s[0]) + expand(s.skip(1), f)
    }
}

proof fn lemma_expand_step(s: Seq<u8>, i: int, f: spec_fn(u8) -> Seq<u8>)
    requires
        0 <= i < s.len(),
    ensures
        expand(s.skip(i), f) == f(s[i]) + expand(s.skip(i + 1), f),
{
    let q = s.skip(i);
    assert(q.len() == s.len() - i);
    assert(q[0] == s[i]);
    assert(q.skip(1) =~= s.skip(i + 1));
}

// ---- CSV ----

pub open spec fn csv_special(b: u8) -> bool {
    b == 0x2c || b == 0x22 || b == 0x0d || b == 0x0a
}

pub open spec fn csv_f() -> spec_fn(u8) -> Seq<u8> {
    |b: u8|
        if b == 0x22 {
            seq![0x22u8, 0x22]
        } else {
            seq![b]
        }
}

/// RFC 4180 escaping: quote-wrap when the value holds a comma, quote, CR
/// or LF, doubling embedded quotes; any other value passes unchanged.
pub open spec fn csv_escape(s: Seq<u8>) -> Seq<u8> {
    if exists|i: int| 0 <= i < s.len() && csv_special(#[trigger] s[i]) {
        seq![0x22u8] + expand(s, csv_f()) + seq![0x22u8]
    } else {
        s
    }
}

pub fn csv_escape_exec(s: &[u8]) -> (r: Vec<u8>)
    ensures
        r@ == csv_escape(s@),
{
    let mut special = false;
    let mut i: usize = 0;
    while i < s.len()
        invariant
            i <= s@.len(),
            special <==> exists|k: int| 0 <= k < i && csv_special(#[trigger] s@[k]),
        decreases s@.len() - i,
    {
        let b = s[i];
        if b == 0x2c || b == 0x22 || b == 0x0d || b == 0x0a {
            special = true;
            assert(csv_special(s@[i as int]));
        }
        i = i + 1;
    }
    if !special {
        let mut out: Vec<u8> = Vec::new();
        push_bytes(&mut out, s);
        assert(out@ =~= s@);
        return out;
    }
    let mut out: Vec<u8> = Vec::new();
    out.push(0x22);
    let ghost pre = out@;
    let mut i2: usize = 0;
    assert(s@.skip(0) =~= s@);
    while i2 < s.len()
        invariant
            i2 <= s@.len(),
            pre + expand(s@, csv_f()) == out@ + expand(s@.skip(i2 as int), csv_f()),
        decreases s@.len() - i2,
    {
        let b = s[i2];
        let ghost o0 = out@;
        if b == 0x22 {
            out.push(0x22);
            out.push(0x22);
        } else {
            out.push(b);
        }
        proof {
            lemma_expand_step(s@, i2 as int, csv_f());
            assert(out@ =~= o0 + csv_f()(b));
            assert(o0 + (csv_f()(b) + expand(s@.skip(i2 as int + 1), csv_f())) =~= (o0 + csv_f()(
                b,
            )) + expand(s@.skip(i2 as int + 1), csv_f()));
        }
        i2 = i2 + 1;
    }
    proof {
        assert(s@.skip(i2 as int) =~= Seq::<u8>::empty());
        assert(expand(Seq::<u8>::empty(), csv_f()) =~= Seq::<u8>::empty());
        assert(out@ =~= out@ + expand(s@.skip(i2 as int), csv_f()));
    }
    out.push(0x22);
    assert(out@ =~= seq![0x22u8] + expand(s@, csv_f()) + seq![0x22u8]);
    out
}

// ---- JSON ----

pub open spec fn json_f() -> spec_fn(u8) -> Seq<u8> {
    |b: u8|
        if b == 0x22 {
            seq![0x5cu8, 0x22]
        } else if b == 0x5c {
            seq![0x5cu8, 0x5c]
        } else if b < 0x20 {
            seq![0x5cu8, 0x75, 0x30, 0x30, hex_digit(b as int / 16), hex_digit(b as int % 16)]
        } else {
            seq![b]
        }
}

/// JSON string-body escaping: backslash-escapes the quote and the
/// backslash, writes control bytes as `\u00XX`.
pub open spec fn json_escape(s: Seq<u8>) -> Seq<u8> {
    expand(s, json_f())
}

/// Appends the JSON-escaped body of `s` to `out`.
pub fn push_json_escaped(out: &mut Vec<u8>, s: &[u8])
    ensures
        final(out)@ == old(out)@ + json_escape(s@),
{
    let mut i: usize = 0;
    assert(s@.skip(0) =~= s@);
    while i < s.len()
        invariant
            i <= s@.len(),
            old(out)@ + json_escape(s@) == out@ + expand(s@.skip(i as int), json_f()),
        decreases s@.len() - i,
    {
        let b = s[i];
        let ghost o0 = out@;
        if b == 0x22 {
            out.push(0x5c);
            out.push(0x22);
        } else if b == 0x5c {
            out.push(0x5c);
            out.push(0x5c);
        } else if b < 0x20 {
            out.push(0x5c);
            out.push(0x75);
            out.push(0x30);
            out.push(0x30);
            let hi = b / 16;
            let lo = b % 16;
            let hc: u8 = if hi < 10 {
                0x30 + hi
            } else {
                0x61 + (hi - 10)
            };
            let lc: u8 = if lo < 10 {
                0x30 + lo
            } else {
                0x61 + (lo - 10)
            };
            out.push(hc);
            out.push(lc);
            assert(hc == hex_digit(b as int / 16) && lc == hex_digit(b as int % 16));
        } else {
            out.push(b);
        }
        proof {
            lemma_expand_step(s@, i as int, json_f());
            assert(out@ =~= o0 + json_f()(b));
            assert(o0 + (json_f()(b) + expand(s@.skip(i as int + 1), json_f())) =~= (o0 + json_f()(
                b,
            )) + expand(s@.skip(i as int + 1), json_f()));
        }
        i = i + 1;
    }
    proof {
        assert(s@.skip(i as int) =~= Seq::<u8>::empty());
        assert(out@ =~= out@ + expand(s@.skip(i as int), json_f()));
    }
}

// ---- SQL ----

pub open spec fn sql_str_f() -> spec_fn(u8) -> Seq<u8> {
    |b: u8|
        if b == 0x27 {
            seq![0x27u8, 0x27]
        } else {
            seq![b]
        }
}

/// SQL string-literal body: embedded single quotes are doubled.
pub open spec fn sql_str_escape(s: Seq<u8>) -> Seq<u8> {
    expand(s, sql_str_f())
}

/// Appends the SQL string-literal body of `s` to `out`.
pub fn push_sql_str_escaped(out: &mut Vec<u8>, s: &[u8])
    ensures
        final(out)@ == old(out)@ + sql_str_escape(s@),
{
    let mut i: usize = 0;
    assert(s@.skip(0) =~= s@);
    while i < s.len()
        invariant
            i <= s@.len(),
            old(out)@ + sql_str_escape(s@) == out@ + expand(s@.skip(i as int), sql_str_f()),
        decreases s@.len() - i,
    {
        let b = s[i];
        let ghost o0 = out@;
        if b == 0x27 {
            out.push(0x27);
            out.push(0x27);
        } else {
            out.push(b);
        }
        proof {
            lemma_expand_step(s@, i as int, sql_str_f());
            assert(out@ =~= o0 + sql_str_f()(b));
            assert(o0 + (sql_str_f()(b) + expand(s@.skip(i as int + 1), sql_str_f())) =~= (o0
                + sql_str_f()(b)) + expand(s@.skip(i as int + 1), sql_str_f()));
        }
        i = i + 1;
    }
    proof {
        assert(s@.skip(i as int) =~= Seq::<u8>::empty());
        assert(out@ =~= out@ + expand(s@.skip(i as int), sql_str_f()));
    }
}

pub open spec fn sql_ident_f() -> spec_fn(u8) -> Seq<u8> {
    |b: u8|
        if b == 0x22 {
            seq![0x22u8, 0x22]
        } else {
            seq![b]
        }
}

/// SQL identifier body: embedded double quotes are doubled.
pub open spec fn sql_ident_escape(s: Seq<u8>) -> Seq<u8> {
    expand(s, sql_ident_f())
}

/// Appends the SQL identifier body of `s` to `out`.
pub fn push_sql_ident_escaped(out: &mut Vec<u8>, s: &[u8])
    ensures
        final(out)@ == old(out)@ + sql_ident_escape(s@),
{
    let mut i: usize = 0;
    assert(s@.skip(0) =~= s@);
    while i < s.len()
        invariant
            i <= s@.len(),
            old(out)@ + sql_ident_escape(s@) == out@ + expand(s@.skip(i as int), sql_ident_f()),
        decreases s@.len() - i,
    {
        let b = s[i];
        let ghost o0 = out@;
        if b == 0x22 {
            out.push(0x22);
            out.push(0x22);
        } else {
            out.push(b);
        }
        proof {
            lemma_expand_step(s@, i as int, sql_ident_f());
            assert(out@ =~= o0 + sql_ident_f()(b));
            assert(o0 + (sql_ident_f()(b) + expand(s@.skip(i as int + 1), sql_ident_f())) =~= (o0
                + sql_ident_f()(b)) + expand(s@.skip(i as int + 1), sql_ident_f()));
        }
        i = i + 1;
    }
    proof {
        assert(s@.skip(i as int) =~= Seq::<u8>::empty());
        assert(out@ =~= out@ + expand(s@.skip(i as int), sql_ident_f()));
    }
}

// ---- XML ----

pub open spec fn xml_f() -> spec_fn(u8) -> Seq<u8> {
    |b: u8|
        if b == 0x26 {
            seq![0x26u8, 0x61, 0x6d, 0x70, 0x3b]
        } else if b == 0x3c {
            seq![0x26u8, 0x6c, 0x74, 0x3b]
        } else if b == 0x3e {
            seq![0x26u8, 0x67, 0x74, 0x3b]
        } else if b == 0x22 {
            seq![0x26u8, 0x71, 0x75, 0x6f, 0x74, 0x3b]
        } else {
            seq![b]
        }
}

/// XML text and attribute escaping: `&`, `<`, `>` and the double quote
/// become entities.
pub open spec fn xml_escape(s: Seq<u8>) -> Seq<u8> {
    expand(s, xml_f())
}

/// Appends the XML-escaped body of `s` to `out`.
pub fn push_xml_escaped(out: &mut Vec<u8>, s: &[u8])
    ensures
        final(out)@ == old(out)@ + xml_escape(s@),
{
    let mut i: usize = 0;
    assert(s@.skip(0) =~= s@);
    while i < s.len()
        invariant
            i <= s@.len(),
            old(out)@ + xml_escape(s@) == out@ + expand(s@.skip(i as int), xml_f()),
        decreases s@.len() - i,
    {
        let b = s[i];
        let ghost o0 = out@;
        if b == 0x26 {
            out.push(0x26);
            out.push(0x61);
            out.push(0x6d);
            out.push(0x70);
            out.push(0x3b);
        } else if b == 0x3c {
            out.push(0x26);
            out.push(0x6c);
            out.push(0x74);
            out.push(0x3b);
        } else if b == 0x3e {
            out.push(0x26);
            out.push(0x67);
            out.push(0x74);
            out.push(0x3b);
        } else if b == 0x22 {
            out.push(0x26);
            out.push(0x71);
            out.push(0x75);
            out.push(0x6f);
            out.push(0x74);
            out.push(0x3b);
        } else {
            out.push(b);
        }
        proof {
            lemma_expand_step(s@, i as int, xml_f());
            assert(out@ =~= o0 + xml_f()(b));
            assert(o0 + (xml_f()(b) + expand(s@.skip(i as int + 1), xml_f())) =~= (o0 + xml_f()(b))
                + expand(s@.skip(i as int + 1), xml_f()));
        }
        i = i + 1;
    }
    proof {
        assert(s@.skip(i as int) =~= Seq::<u8>::empty());
        assert(out@ =~= out@ + expand(s@.skip(i as int), xml_f()));
    }
}

// ---- localization ----

/// The contents the serializers see of an optional localization table: the
/// table's entries, or nothing.
pub open spec fn loc_view(loc: Option<&LocalizationMap>) -> Map<Seq<u8>, Option<Seq<u8>>> {
    match loc {
        Some(m) => loc_entries(*m),
        None => Map::empty(),
    }
}

/// The text a string value renders as: a value opening with the
/// localization prefix `@` is replaced by the translation its key (the
/// rest of the value) maps to; a missing key, an absent translation, or an
/// absent table leaves the value as written.
pub open spec fn localize(s: Seq<u8>, loc: Map<Seq<u8>, Option<Seq<u8>>>) -> Seq<u8> {
    if s.len() > 0 && s[0] == 0x40 {
        let key = s.skip(1);
        if loc.dom().contains(key) {
            match loc[key] {
                Some(t) => t,
                None => s,
            }
        } else {
            s
        }
    } else {
        s
    }
}

/// Looks a string value up in the localization table, as [`localize`]
/// says.
pub fn localize_exec(s: &[u8], loc: Option<&LocalizationMap>) -> (r: Vec<u8>)
    ensures
        r@ == localize(s@, loc_view(loc)),
{
    if s.len() > 0 && s[0] == 0x40 {
        let key = vstd::slice::slice_subrange(s, 1, s.len());
        assert(key@ == s@.skip(1));
        match loc {
            Some(m) => match m.get(key) {
                Some(Some(t)) => {
                    return t;
                },
                Some(None) => {},
                None => {},
            },
            None => {},
        }
    }
    let mut out: Vec<u8> = Vec::new();
    push_bytes(&mut out, s);
    assert(out@ =~= s@);
    out
}

// ---- indentation ----

pub open spec fn spaces(n: int) -> Seq<u8> {
    Seq::new(if n < 0 { 0 } else { n } as nat, |i: int| 0x20u8)
}

/// Appends `n` spaces.
pub fn push_spaces(out: &mut Vec<u8>, n: usize)
    ensures
        final(out)@ == old(out)@ + spaces(n as int),
{
    let mut i: usize = 0;
    while i < n
        invariant
            i <= n,
            out@ == old(out)@ + spaces(i as int),
        decreases n - i,
    {
        out.push(0x20);
        assert(out@ =~= old(out)@ + spaces(i as int + 1));
        i = i + 1;
    }
}

/// Appends `n` tab characters.
pub fn push_tabs(out: &mut Vec<u8>, n: usize)
    ensures
        final(out)@ == old(out)@ + tabs(n as int),
{
    let mut i: usize = 0;
    while i < n
        invariant
            i <= n,
            out@ == old(out)@ + tabs(i as int),
        decreases n - i,
    {
        out.push(0x09);
        assert(out@ =~= old(out)@ + tabs(i as int + 1));
        i = i + 1;
    }
}

pub open spec fn tabs(n: int) -> Seq<u8> {
    Seq::new(if n < 0 { 0 } else { n } as nat, |i: int| 0x09u8)
}

} // verus!
