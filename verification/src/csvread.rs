//! A trivial CSV reader — lines at LF, fields at commas, quoting not
//! interpreted — and the round-trip law: re-importing rendered CSV
//! recovers the column names and the row count.
use vstd::prelude::*;

use crate::bytes::{dec_digit, dec_text, push_bytes};
use crate::datasheet::{CellV, ColV, DatasheetV};
use crate::dsrender::{csv_cell, csv_cells_from, csv_header_from, csv_rows_from, csv_text};
use crate::escape::{csv_escape, csv_special};
use crate::floatfmt::{float_text, inf_text, nan_text, pad6, pow10};
use vstd::arithmetic::power2::pow2;


verus! {

/// How many times `b` occurs in `s`.
pub open spec fn count_byte(s: Seq<u8>, b: u8) -> int
    decreases s.len(),
{
    if s.len() == 0 {
        0
    } else {
        (if s[0] == b {
            1int
        } else {
            0int
        }) + count_byte(s.skip(1), b)
    }
}

/// The prefix of `s` before the first `b`, or all of `s`.
pub open spec fn take_until(s: Seq<u8>, b: u8) -> Seq<u8>
    decreases s.len(),
{
    if s.len() == 0 {
        Seq::empty()
    } else if s[0] == b {
        Seq::empty()
    } else {
        seq![s[0]] + take_until(s.skip(1), b)
    }
}

/// The fields of `s`, split at commas; always one more field than
/// commas.
pub open spec fn split_commas(s: Seq<u8>) -> Seq<Seq<u8>>
    decreases s.len(),
{
    let f = take_until(s, 0x2c);
    if f.len() >= s.len() {
        seq![s]
    } else {
        seq![f] + split_commas(s.skip(f.len() as int + 1))
    }
}

/// No byte of `s` is special to CSV (comma, quote, CR, LF).
pub open spec fn csv_clean(s: Seq<u8>) -> bool {
    forall|i: int| 0 <= i < s.len() ==> !csv_special(#[trigger] s[i])
}

// ---- the trivial reader, executable ----

fn take_until_exec(s: &[u8], b: u8) -> (r: Vec<u8>)
    ensures
        r@ == take_until(s@, b),
        r@.len() <= s@.len(),
{
    let mut out: Vec<u8> = Vec::new();
    let mut i: usize = 0;
    assert(s@.skip(0) =~= s@);
    while i < s.len() && s[i] != b
        invariant
            i <= s@.len(),
            out@.len() == i,
            take_until(s@, b) == out@ + take_until(s@.skip(i as int), b),
        decreases s@.len() - i,
    {
        let ghost o0 = out@;
        out.push(s[i]);
        proof {
            let q = s@.skip(i as int);
            assert(q[0] == s@[i as int]);
            assert(q.skip(1) =~= s@.skip(i as int + 1));
            assert(take_until(s@.skip(i as int), b) == seq![s@[i as int]] + take_until(
                s@.skip(i as int + 1),
                b,
            ));
            assert(out@ =~= o0 + seq![s@[i as int]]);
            assert(o0 + (seq![s@[i as int]] + take_until(s@.skip(i as int + 1), b)) =~= out@
                + take_until(s@.skip(i as int + 1), b));
        }
        i = i + 1;
    }
    proof {
        assert(take_until(s@.skip(i as int), b) =~= Seq::<u8>::empty());
        assert(out@ =~= out@ + take_until(s@.skip(i as int), b));
    }
    out
}

fn split_commas_exec(s: &[u8]) -> (r: Vec<Vec<u8>>)
    ensures
        r@.map_values(|f: Vec<u8>| f@) == split_commas(s@),
    decreases s@.len(),
{
    let f = take_until_exec(s, 0x2c);
    if f.len() >= s.len() {
        let mut whole: Vec<u8> = Vec::new();
        push_bytes(&mut whole, s);
        assert(whole@ =~= s@);
        let mut out: Vec<Vec<u8>> = Vec::new();
        out.push(whole);
        proof {
            assert(out@.map_values(|x: Vec<u8>| x@) =~= seq![s@]);
        }
        out
    } else {
        let rest = vstd::slice::slice_subrange(s, f.len() + 1, s.len());
        assert(rest@ == s@.skip(f@.len() as int + 1));
        let mut out = split_commas_exec(rest);
        let ghost tail = out@.map_values(|x: Vec<u8>| x@);
        out.insert(0, f);
        proof {
            assert(out@.map_values(|x: Vec<u8>| x@) =~= seq![f@] + tail);
        }
        out
    }
}

fn count_byte_exec(s: &[u8], b: u8) -> (r: usize)
    ensures
        r as int == count_byte(s@, b),
{
    let mut cnt: usize = 0;
    let mut i: usize = 0;
    assert(s@.skip(0) =~= s@);
    while i < s.len()
        invariant
            i <= s@.len(),
            cnt <= i,
            count_byte(s@, b) == cnt + count_byte(s@.skip(i as int), b),
        decreases s@.len() - i,
    {
        proof {
            let q = s@.skip(i as int);
            assert(q[0] == s@[i as int]);
            assert(q.skip(1) =~= s@.skip(i as int + 1));
            assert(count_byte(s@.skip(i as int), b) == (if s@[i as int] == b {
                1int
            } else {
                0int
            }) + count_byte(s@.skip(i as int + 1), b));
        }
        if s[i] == b {
            cnt = cnt + 1;
        }
        i = i + 1;
    }
    proof {
        assert(count_byte(s@.skip(i as int), b) == 0);
    }
    cnt
}

/// Reads CSV text the trivial way: the fields of the first line, and the
/// number of line feeds in the whole text.
pub fn csv_parse_simple(b: &[u8]) -> (r: (Vec<Vec<u8>>, usize))
    ensures
        r.0@.map_values(|f: Vec<u8>| f@) == split_commas(take_until(b@, 0x0a)),
        r.1 as int == count_byte(b@, 0x0a),
{
    let first = take_until_exec(b, 0x0a);
    let names = split_commas_exec(first.as_slice());
    let lines = count_byte_exec(b, 0x0a);
    (names, lines)
}


// ---- the round-trip law ----


proof fn lemma_count_empty(b: u8)
    ensures
        count_byte(Seq::<u8>::empty(), b) == 0,
{
}

proof fn lemma_count_one(x: u8, b: u8)
    ensures
        count_byte(seq![x], b) == (if x == b {
            1int
        } else {
            0int
        }),
{
    assert(seq![x].skip(1) =~= Seq::<u8>::empty());
    lemma_count_empty(b);
    assert(count_byte(seq![x], b) == (if x == b {
        1int
    } else {
        0int
    }) + count_byte(seq![x].skip(1), b));
}

proof fn lemma_count_concat(x: Seq<u8>, y: Seq<u8>, b: u8)
    ensures
        count_byte(x + y, b) == count_byte(x, b) + count_byte(y, b),
    decreases x.len(),
{
    if x.len() == 0 {
        assert(x + y =~= y);
    } else {
        assert((x + y).skip(1) =~= x.skip(1) + y);
        lemma_count_concat(x.skip(1), y, b);
        assert((x + y)[0] == x[0]);
    }
}

proof fn lemma_count_zero_iff(s: Seq<u8>, b: u8)
    ensures
        (count_byte(s, b) == 0) <==> (forall|i: int| 0 <= i < s.len() ==> #[trigger] s[i] != b),
    decreases s.len(),
{
    if s.len() > 0 {
        lemma_count_zero_iff(s.skip(1), b);
        assert(forall|i: int| 0 <= i < s.skip(1).len() ==> #[trigger] s.skip(1)[i] == s[i + 1]);
        if count_byte(s, b) == 0 {
            assert(count_byte(s.skip(1), b) >= 0) by {
                lemma_count_nonneg(s.skip(1), b);
            }
            assert forall|i: int| 0 <= i < s.len() implies #[trigger] s[i] != b by {
                if i == 0 {
                    assert(s[0] != b);
                } else {
                    assert(s.skip(1)[i - 1] != b);
                }
            }
        }
        if forall|i: int| 0 <= i < s.len() ==> #[trigger] s[i] != b {
            assert(count_byte(s.skip(1), b) == 0);
        }
        assert(count_byte(s, b) >= 0) by {
            lemma_count_nonneg(s, b);
        }
    }
}

proof fn lemma_count_nonneg(s: Seq<u8>, b: u8)
    ensures
        count_byte(s, b) >= 0,
    decreases s.len(),
{
    if s.len() > 0 {
        lemma_count_nonneg(s.skip(1), b);
    }
}

proof fn lemma_take_until_all(a: Seq<u8>, b: u8)
    requires
        forall|i: int| 0 <= i < a.len() ==> #[trigger] a[i] != b,
    ensures
        take_until(a, b) == a,
    decreases a.len(),
{
    if a.len() > 0 {
        assert(forall|i: int| 0 <= i < a.skip(1).len() ==> #[trigger] a.skip(1)[i] == a[i + 1]);
        lemma_take_until_all(a.skip(1), b);
        assert(seq![a[0]] + a.skip(1) =~= a);
    }
}

proof fn lemma_take_until_concat(a: Seq<u8>, c: Seq<u8>, b: u8)
    requires
        forall|i: int| 0 <= i < a.len() ==> #[trigger] a[i] != b,
    ensures
        take_until(a + seq![b] + c, b) == a,
    decreases a.len(),
{
    let s = a + seq![b] + c;
    if a.len() == 0 {
        assert(s[0] == b);
        assert(a =~= take_until(s, b));
    } else {
        assert(s[0] == a[0]);
        assert(s.skip(1) =~= a.skip(1) + seq![b] + c);
        assert(forall|i: int| 0 <= i < a.skip(1).len() ==> #[trigger] a.skip(1)[i] == a[i + 1]);
        lemma_take_until_concat(a.skip(1), c, b);
        assert(take_until(s, b) == seq![a[0]] + a.skip(1));
        assert(seq![a[0]] + a.skip(1) =~= a);
    }
}

proof fn lemma_header_split(cols: Seq<ColV>, k: int)
    requires
        0 <= k < cols.len(),
        forall|j: int| 0 <= j < cols.len() ==> csv_clean((#[trigger] cols[j]).name),
    ensures
        split_commas(csv_escape(cols[k].name) + csv_header_from(cols, k + 1)) == cols.subrange(
            k,
            cols.len() as int,
        ).map_values(|c: ColV| c.name),
    decreases cols.len() - k,
{
    let name = cols[k].name;
    assert(csv_escape(name) == name);
    if k + 1 >= cols.len() {
        let x = csv_escape(name) + csv_header_from(cols, k + 1);
        assert(csv_header_from(cols, k + 1) =~= Seq::<u8>::empty());
        assert(x =~= name);
        assert(forall|i: int| 0 <= i < name.len() ==> #[trigger] name[i] != 0x2c);
        lemma_take_until_all(name, 0x2c);
        assert(take_until(x, 0x2c) == name);
        assert(split_commas(x) =~= seq![name]);
        assert(cols.subrange(k, cols.len() as int).map_values(|c: ColV| c.name) =~= seq![name]);
    } else {
        let x1 = csv_escape(cols[k + 1].name) + csv_header_from(cols, k + 2);
        assert(csv_header_from(cols, k + 1) == seq![0x2cu8] + x1);
        let x = csv_escape(name) + csv_header_from(cols, k + 1);
        assert(x =~= name + seq![0x2cu8] + x1);
        assert(forall|i: int| 0 <= i < name.len() ==> #[trigger] name[i] != 0x2c);
        lemma_take_until_concat(name, x1, 0x2c);
        assert(take_until(x, 0x2c) == name);
        assert(x.len() == name.len() + 1 + x1.len());
        assert(x.skip(name.len() as int + 1) =~= x1);
        lemma_header_split(cols, k + 1);
        assert(split_commas(x) == seq![name] + split_commas(x1));
        assert(seq![name] + cols.subrange(k + 1, cols.len() as int).map_values(|c: ColV| c.name)
            =~= cols.subrange(k, cols.len() as int).map_values(|c: ColV| c.name));
    }
}

proof fn lemma_header_no_nl(cols: Seq<ColV>, k: int)
    requires
        forall|j: int| 0 <= j < cols.len() ==> csv_clean((#[trigger] cols[j]).name),
    ensures
        count_byte(csv_header_from(cols, k), 0x0a) == 0,
    decreases cols.len() - k,
{
    if k < 0 || k >= cols.len() {
        assert(csv_header_from(cols, k) =~= Seq::<u8>::empty());
    } else {
        lemma_header_no_nl(cols, k + 1);
        let sep: Seq<u8> = if k > 0 {
            seq![0x2cu8]
        } else {
            Seq::empty()
        };
        let name = cols[k].name;
        assert(csv_escape(name) == name);
        lemma_count_zero_iff(name, 0x0a);
        lemma_count_concat(sep, name, 0x0a);
        lemma_count_concat(sep + name, csv_header_from(cols, k + 1), 0x0a);
        assert(csv_header_from(cols, k) =~= (sep + name) + csv_header_from(cols, k + 1));
        assert(count_byte(sep, 0x0a) == 0) by {
            lemma_count_empty(0x0a);
            lemma_count_one(0x2c, 0x0a);
        }
    }
}

proof fn lemma_cells_no_nl(row: Seq<CellV>, loc: Map<Seq<u8>, Option<Seq<u8>>>, k: int)
    requires
        forall|j: int| 0 <= j < row.len() ==> csv_clean(csv_cell(#[trigger] row[j], loc)),
    ensures
        count_byte(csv_cells_from(row, loc, k), 0x0a) == 0,
    decreases row.len() - k,
{
    if k < 0 || k >= row.len() {
        assert(csv_cells_from(row, loc, k) =~= Seq::<u8>::empty());
    } else {
        lemma_cells_no_nl(row, loc, k + 1);
        let sep: Seq<u8> = if k > 0 {
            seq![0x2cu8]
        } else {
            Seq::empty()
        };
        let cell = csv_cell(row[k], loc);
        lemma_count_zero_iff(cell, 0x0a);
        lemma_count_concat(sep, cell, 0x0a);
        lemma_count_concat(sep + cell, csv_cells_from(row, loc, k + 1), 0x0a);
        assert(csv_cells_from(row, loc, k) =~= (sep + cell) + csv_cells_from(row, loc, k + 1));
        assert(count_byte(sep, 0x0a) == 0) by {
            lemma_count_empty(0x0a);
            lemma_count_one(0x2c, 0x0a);
        }
    }
}

proof fn lemma_rows_count(
    rows: Seq<Seq<CellV>>,
    loc: Map<Seq<u8>, Option<Seq<u8>>>,
    i: int,
)
    requires
        0 <= i <= rows.len(),
        forall|a: int, j: int|
            0 <= a < rows.len() && 0 <= j < rows[a].len() ==> csv_clean(
                csv_cell(#[trigger] rows[a][j], loc),
            ),
    ensures
        count_byte(csv_rows_from(rows, loc, i), 0x0a) == rows.len() - i,
    decreases rows.len() - i,
{
    if i >= rows.len() {
        assert(csv_rows_from(rows, loc, i) =~= Seq::<u8>::empty());
    } else {
        lemma_rows_count(rows, loc, i + 1);
        let cells = csv_cells_from(rows[i], loc, 0);
        assert(forall|j: int|
            0 <= j < rows[i].len() ==> csv_clean(csv_cell(#[trigger] rows[i][j], loc)));
        lemma_cells_no_nl(rows[i], loc, 0);
        lemma_count_concat(cells, seq![0x0au8], 0x0a);
        lemma_count_concat(cells + seq![0x0au8], csv_rows_from(rows, loc, i + 1), 0x0a);
        assert(csv_rows_from(rows, loc, i) =~= (cells + seq![0x0au8]) + csv_rows_from(
            rows,
            loc,
            i + 1,
        ));
        assert(count_byte(seq![0x0au8], 0x0a) == 1) by {
            lemma_count_one(0x0a, 0x0a);
        }
    }
}


proof fn lemma_dec_text_digits(n: nat)
    ensures
        forall|i: int|
            0 <= i < dec_text(n).len() ==> 0x30 <= #[trigger] dec_text(n)[i] <= 0x39,
    decreases n,
{
    if n < 10 {
        assert(dec_text(n) =~= seq![dec_digit(n as int)]);
    } else {
        lemma_dec_text_digits(n / 10);
        let pre = dec_text(n / 10);
        let t = dec_text(n);
        assert(t =~= pre.push(dec_digit((n % 10) as int)));
        assert forall|i: int| 0 <= i < t.len() implies 0x30 <= #[trigger] t[i] <= 0x39 by {
            if i < pre.len() {
                assert(t[i] == pre[i]);
            } else {
                assert(t[i] == dec_digit((n % 10) as int));
            }
        }
    }
}


proof fn lemma_clean_concat(a: Seq<u8>, b: Seq<u8>)
    requires
        csv_clean(a),
        csv_clean(b),
    ensures
        csv_clean(a + b),
{
    assert forall|i: int| 0 <= i < (a + b).len() implies !csv_special(#[trigger] (a + b)[i]) by {
        if i < a.len() {
            assert((a + b)[i] == a[i]);
        } else {
            assert((a + b)[i] == b[i - a.len()]);
        }
    }
}

proof fn lemma_pad6_clean(n: int)
    ensures
        csv_clean(pad6(n)),
{
    assert forall|i: int| 0 <= i < pad6(n).len() implies !csv_special(#[trigger] pad6(n)[i]) by {
        assert(pad6(n)[i] == dec_digit((n / pow10((5 - i) as nat)) % 10));
    }
}

/// A float cell's text is CSV-clean too: sign, digits, a dot, or the
/// non-finite words.
proof fn lemma_float_text_clean(bits: u32)
    ensures
        csv_clean(float_text(bits)),
{
    let expf = (bits as int / 0x800000) % 256;
    let frac = bits as int % 0x800000;
    if expf == 255 {
        assert(csv_clean(nan_text()));
        assert(csv_clean(inf_text()));
        assert(csv_clean(seq![0x2du8]));
        lemma_clean_concat(seq![0x2du8], inf_text());
    } else {
        let m = if expf == 0 {
            frac
        } else {
            0x800000 + frac
        };
        let sh = if expf == 0 {
            1
        } else {
            expf
        };
        assert(csv_clean(seq![0x2eu8]));
        assert(csv_clean(seq![0x2du8]));
        if sh >= 150 {
            lemma_dec_text_digits((m * pow2((sh - 150) as nat)) as nat);
            let dt = dec_text((m * pow2((sh - 150) as nat)) as nat);
            assert(csv_clean(dt)) by {
                assert forall|i: int| 0 <= i < dt.len() implies !csv_special(#[trigger] dt[i]) by {
                    assert(0x30 <= dt[i] <= 0x39);
                }
            }
            lemma_pad6_clean(0);
            lemma_clean_concat(dt, seq![0x2eu8]);
            lemma_clean_concat(dt + seq![0x2eu8], pad6(0));
        } else {
            let ip = (m / pow2((150 - sh) as nat) as int) as nat;
            let fr = ((m % pow2((150 - sh) as nat) as int) * 1000000) / pow2((150 - sh) as nat) as int;
            lemma_dec_text_digits(ip);
            let dt = dec_text(ip);
            assert(csv_clean(dt)) by {
                assert forall|i: int| 0 <= i < dt.len() implies !csv_special(#[trigger] dt[i]) by {
                    assert(0x30 <= dt[i] <= 0x39);
                }
            }
            lemma_pad6_clean(fr);
            lemma_clean_concat(dt, seq![0x2eu8]);
            lemma_clean_concat(dt + seq![0x2eu8], pad6(fr));
        }
        let body = float_text_body(bits);
        lemma_clean_concat(seq![0x2du8], body);
    }
}

/// The text of a finite float after its optional sign.
pub open spec fn float_text_body(bits: u32) -> Seq<u8> {
    let expf = (bits as int / 0x800000) % 256;
    let frac = bits as int % 0x800000;
    let m = if expf == 0 {
        frac
    } else {
        0x800000 + frac
    };
    let sh = if expf == 0 {
        1
    } else {
        expf
    };
    if sh >= 150 {
        dec_text((m * pow2((sh - 150) as nat)) as nat) + seq![0x2eu8] + pad6(0)
    } else {
        dec_text((m / pow2((150 - sh) as nat) as int) as nat) + seq![0x2eu8] + pad6(
            ((m % pow2((150 - sh) as nat) as int) * 1000000) / pow2((150 - sh) as nat) as int,
        )
    }
}

/// An integer, float or boolean cell always renders CSV-clean, so the
/// round-trip law applies to such columns with nothing to check.
pub proof fn lemma_numeric_cell_clean(c: CellV, loc: Map<Seq<u8>, Option<Seq<u8>>>)
    requires
        c is Int || c is Bool || c is Float,
    ensures
        csv_clean(csv_cell(c, loc)),
{
    match c {
        CellV::Int(v) => {
            let m: nat = if v < 0 {
                (-v) as nat
            } else {
                v as nat
            };
            lemma_dec_text_digits(m);
            if v < 0 {
                let t = seq![0x2du8] + dec_text(m);
                assert forall|i: int| 0 <= i < t.len() implies !csv_special(#[trigger] t[i]) by {
                    if i > 0 {
                        assert(t[i] == dec_text(m)[i - 1]);
                    }
                }
            } else {
                let t = dec_text(m);
                assert forall|i: int| 0 <= i < t.len() implies !csv_special(#[trigger] t[i]) by {
                    assert(0x30 <= t[i] <= 0x39);
                }
            }
        },
        CellV::Float(bits) => {
            lemma_float_text_clean(bits);
        },
        _ => {},
    }
}

/// Law: datasheet round trip. Rendering a datasheet to CSV and reading
/// the text back with the trivial reader recovers the column names as
/// the first line's fields, and the row count as the line count less the
/// header line — provided no column name and no rendered cell contains a
/// byte the trivial reader cannot see past (comma, quote, CR, LF).
pub proof fn lemma_csv_round_trip(d: DatasheetV, loc: Map<Seq<u8>, Option<Seq<u8>>>)
    requires
        d.columns.len() > 0,
        forall|j: int| 0 <= j < d.columns.len() ==> csv_clean((#[trigger] d.columns[j]).name),
        forall|i: int, j: int|
            0 <= i < d.rows.len() && 0 <= j < d.rows[i].len() ==> csv_clean(
                csv_cell(#[trigger] d.rows[i][j], loc),
            ),
    ensures
        split_commas(take_until(csv_text(d, loc), 0x0a)) == d.columns.map_values(
            |c: ColV| c.name,
        ),
        count_byte(csv_text(d, loc), 0x0a) == 1 + d.rows.len(),
{
    let header = csv_header_from(d.columns, 0);
    let rows_txt = csv_rows_from(d.rows, loc, 0);
    let text = csv_text(d, loc);
    assert(text =~= header + seq![0x0au8] + rows_txt);

    lemma_header_no_nl(d.columns, 0);
    lemma_count_zero_iff(header, 0x0a);
    lemma_take_until_concat(header, rows_txt, 0x0a);
    assert(take_until(text, 0x0a) == header);

    assert(header =~= csv_escape(d.columns[0].name) + csv_header_from(d.columns, 1));
    lemma_header_split(d.columns, 0);
    assert(d.columns.subrange(0, d.columns.len() as int) =~= d.columns);
    assert(split_commas(header) == d.columns.map_values(|c: ColV| c.name));

    lemma_count_concat(header, seq![0x0au8], 0x0a);
    lemma_count_concat(header + seq![0x0au8], rows_txt, 0x0a);
    lemma_rows_count(d.rows, loc, 0);
    assert(count_byte(seq![0x0au8], 0x0a) == 1) by {
        lemma_count_one(0x0a, 0x0a);
    }
    assert(text =~= (header + seq![0x0au8]) + rows_txt);
}

} // verus!
