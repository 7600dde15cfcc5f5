//! Serializers for parsed datasheets: CSV, SQL, YAML, and JSON in compact
//! and indented form. Every string cell is localized before it is
//! escaped for the target encoding.
use vstd::prelude::*;

use crate::bytes::{int_text, push_bytes, i64_text};
use crate::datasheet::{CellV, ColV, Datasheet, DatasheetV, DsCell, DsType};
use crate::escape::{
    csv_escape,
    csv_escape_exec,
    json_escape,
    loc_view,
    localize,
    localize_exec,
    push_json_escaped,
    push_spaces,
    push_sql_ident_escaped,
    push_sql_str_escaped,
    spaces,
    sql_ident_escape,
    sql_str_escape,
};
use crate::floatfmt::{float_cell_text, float_text};
use crate::tables::LocalizationMap;

verus! {

pub open spec fn bool_text(b: bool) -> Seq<u8> {
    if b {
        seq![0x74u8, 0x72, 0x75, 0x65]
    } else {
        seq![0x66u8, 0x61, 0x6c, 0x73, 0x65]
    }
}

fn push_bool_text(out: &mut Vec<u8>, b: bool)
    ensures
        final(out)@ == old(out)@ + bool_text(b),
{
    if b {
        out.push(0x74);
        out.push(0x72);
        out.push(0x75);
        out.push(0x65);
    } else {
        out.push(0x66);
        out.push(0x61);
        out.push(0x6c);
        out.push(0x73);
        out.push(0x65);
    }
    assert(out@ =~= old(out)@ + bool_text(b));
}

// ---- per-format cell text ----

/// CSV text of one cell: numbers and booleans as plain text, strings
/// localized then RFC 4180 escaped.
pub open spec fn csv_cell(c: CellV, loc: Map<Seq<u8>, Option<Seq<u8>>>) -> Seq<u8> {
    match c {
        CellV::Int(v) => int_text(v),
        CellV::Float(bits) => float_text(bits),
        CellV::Bool(b) => bool_text(b),
        CellV::Text(s) => csv_escape(localize(s, loc)),
    }
}

fn push_csv_cell(out: &mut Vec<u8>, c: &DsCell, loc: Option<&LocalizationMap>)
    ensures
        final(out)@ == old(out)@ + csv_cell(c@, loc_view(loc)),
{
    match c {
        DsCell::Int(v) => {
            let t = i64_text(*v as i64);
            push_bytes(out, t.as_slice());
        },
        DsCell::Float(bits) => {
            let t = float_cell_text(*bits);
            push_bytes(out, t.as_slice());
        },
        DsCell::Bool(b) => push_bool_text(out, *b),
        DsCell::Text(s) => {
            let lv = localize_exec(s.as_slice(), loc);
            let esc = csv_escape_exec(lv.as_slice());
            push_bytes(out, esc.as_slice());
        },
    }
}

/// JSON value of one cell: numbers bare, booleans as literals, strings
/// localized, escaped and quoted.
pub open spec fn json_value(c: CellV, loc: Map<Seq<u8>, Option<Seq<u8>>>) -> Seq<u8> {
    match c {
        CellV::Int(v) => int_text(v),
        CellV::Float(bits) => float_text(bits),
        CellV::Bool(b) => bool_text(b),
        CellV::Text(s) => seq![0x22u8] + json_escape(localize(s, loc)) + seq![0x22u8],
    }
}

fn push_json_value(out: &mut Vec<u8>, c: &DsCell, loc: Option<&LocalizationMap>)
    ensures
        final(out)@ == old(out)@ + json_value(c@, loc_view(loc)),
{
    match c {
        DsCell::Int(v) => {
            let t = i64_text(*v as i64);
            push_bytes(out, t.as_slice());
        },
        DsCell::Float(bits) => {
            let t = float_cell_text(*bits);
            push_bytes(out, t.as_slice());
        },
        DsCell::Bool(b) => push_bool_text(out, *b),
        DsCell::Text(s) => {
            let lv = localize_exec(s.as_slice(), loc);
            out.push(0x22);
            push_json_escaped(out, lv.as_slice());
            out.push(0x22);
            assert(out@ =~= old(out)@ + (seq![0x22u8] + json_escape(localize(s@, loc_view(loc)))
                + seq![0x22u8]));
        },
    }
}

/// SQL value of one cell: numbers bare, booleans as 1 or 0, strings
/// localized, quote-doubled and single-quoted.
pub open spec fn sql_value(c: CellV, loc: Map<Seq<u8>, Option<Seq<u8>>>) -> Seq<u8> {
    match c {
        CellV::Int(v) => int_text(v),
        CellV::Float(bits) => float_text(bits),
        CellV::Bool(b) => if b {
            seq![0x31u8]
        } else {
            seq![0x30u8]
        },
        CellV::Text(s) => seq![0x27u8] + sql_str_escape(localize(s, loc)) + seq![0x27u8],
    }
}

fn push_sql_value(out: &mut Vec<u8>, c: &DsCell, loc: Option<&LocalizationMap>)
    ensures
        final(out)@ == old(out)@ + sql_value(c@, loc_view(loc)),
{
    match c {
        DsCell::Int(v) => {
            let t = i64_text(*v as i64);
            push_bytes(out, t.as_slice());
        },
        DsCell::Float(bits) => {
            let t = float_cell_text(*bits);
            push_bytes(out, t.as_slice());
        },
        DsCell::Bool(b) => {
            if *b {
                out.push(0x31);
            } else {
                out.push(0x30);
            }
            assert(out@ =~= old(out)@ + sql_value(c@, loc_view(loc)));
        },
        DsCell::Text(s) => {
            let lv = localize_exec(s.as_slice(), loc);
            out.push(0x27);
            push_sql_str_escaped(out, lv.as_slice());
            out.push(0x27);
            assert(out@ =~= old(out)@ + (seq![0x27u8] + sql_str_escape(localize(s@, loc_view(loc)))
                + seq![0x27u8]));
        },
    }
}

// ---- CSV ----

pub open spec fn csv_header_from(cols: Seq<ColV>, k: int) -> Seq<u8>
    decreases cols.len() - k,
{
    if k < 0 || k >= cols.len() {
        Seq::empty()
    } else {
        (if k > 0 {
            seq![0x2cu8]
        } else {
            Seq::empty()
        }) + csv_escape(cols[k].name) + csv_header_from(cols, k + 1)
    }
}

pub open spec fn csv_cells_from(
    row: Seq<CellV>,
    loc: Map<Seq<u8>, Option<Seq<u8>>>,
    k: int,
) -> Seq<u8>
    decreases row.len() - k,
{
    if k < 0 || k >= row.len() {
        Seq::empty()
    } else {
        (if k > 0 {
            seq![0x2cu8]
        } else {
            Seq::empty()
        }) + csv_cell(row[k], loc) + csv_cells_from(row, loc, k + 1)
    }
}

pub open spec fn csv_rows_from(
    rows: Seq<Seq<CellV>>,
    loc: Map<Seq<u8>, Option<Seq<u8>>>,
    i: int,
) -> Seq<u8>
    decreases rows.len() - i,
{
    if i < 0 || i >= rows.len() {
        Seq::empty()
    } else {
        csv_cells_from(rows[i], loc, 0) + seq![0x0au8] + csv_rows_from(rows, loc, i + 1)
    }
}

/// CSV text of a datasheet: the header line of column names, then one
/// line per row, each line newline-terminated, cells comma-separated.
pub open spec fn csv_text(d: DatasheetV, loc: Map<Seq<u8>, Option<Seq<u8>>>) -> Seq<u8> {
    csv_header_from(d.columns, 0) + seq![0x0au8] + csv_rows_from(d.rows, loc, 0)
}

/// Renders a datasheet as CSV.
#[verifier::rlimit(100)]
pub fn render_csv(d: &Datasheet, loc: Option<&LocalizationMap>) -> (r: Vec<u8>)
    ensures
        r@ == csv_text(d@, loc_view(loc)),
{
    let mut out: Vec<u8> = Vec::new();
    let mut k: usize = 0;
    while k < d.columns.len()
        invariant
            k <= d.columns@.len(),
            csv_header_from(d@.columns, 0) == out@ + csv_header_from(d@.columns, k as int),
        decreases d.columns@.len() - k,
    {
        let ghost o0 = out@;
        if k > 0 {
            out.push(0x2c);
        }
        let esc = csv_escape_exec(d.columns[k].name.as_slice());
        push_bytes(&mut out, esc.as_slice());
        proof {
            assert(d@.columns[k as int].name == d.columns@[k as int].name@);
            assert(out@ =~= o0 + ((if k > 0 {
                seq![0x2cu8]
            } else {
                Seq::<u8>::empty()
            }) + csv_escape(d@.columns[k as int].name)));
            assert(o0 + (((if k > 0 {
                seq![0x2cu8]
            } else {
                Seq::<u8>::empty()
            }) + csv_escape(d@.columns[k as int].name)) + csv_header_from(
                d@.columns,
                k as int + 1,
            )) =~= (o0 + ((if k > 0 {
                seq![0x2cu8]
            } else {
                Seq::<u8>::empty()
            }) + csv_escape(d@.columns[k as int].name))) + csv_header_from(
                d@.columns,
                k as int + 1,
            ));
        }
        k = k + 1;
    }
    out.push(0x0a);
    let ghost hdr = out@;
    assert(hdr =~= csv_header_from(d@.columns, 0) + seq![0x0au8]);
    let mut i: usize = 0;
    while i < d.rows.len()
        invariant
            i <= d.rows@.len(),
            hdr == csv_header_from(d@.columns, 0) + seq![0x0au8],
            hdr + csv_rows_from(d@.rows, loc_view(loc), 0) == out@ + csv_rows_from(
                d@.rows,
                loc_view(loc),
                i as int,
            ),
        decreases d.rows@.len() - i,
    {
        let ghost r0 = out@;
        let row = &d.rows[i];
        let mut j: usize = 0;
        while j < row.len()
            invariant
                j <= row@.len(),
                row@ == d.rows@[i as int]@,
                i < d.rows@.len(),
                r0 + csv_cells_from(d@.rows[i as int], loc_view(loc), 0) == out@ + csv_cells_from(
                    d@.rows[i as int],
                    loc_view(loc),
                    j as int,
                ),
            decreases row@.len() - j,
        {
            let ghost o0 = out@;
            if j > 0 {
                out.push(0x2c);
            }
            push_csv_cell(&mut out, &row[j], loc);
            proof {
                assert(d@.rows[i as int][j as int] == row@[j as int]@);
                assert(out@ =~= o0 + ((if j > 0 {
                    seq![0x2cu8]
                } else {
                    Seq::<u8>::empty()
                }) + csv_cell(d@.rows[i as int][j as int], loc_view(loc))));
                assert(o0 + (((if j > 0 {
                    seq![0x2cu8]
                } else {
                    Seq::<u8>::empty()
                }) + csv_cell(d@.rows[i as int][j as int], loc_view(loc))) + csv_cells_from(
                    d@.rows[i as int],
                    loc_view(loc),
                    j as int + 1,
                )) =~= (o0 + ((if j > 0 {
                    seq![0x2cu8]
                } else {
                    Seq::<u8>::empty()
                }) + csv_cell(d@.rows[i as int][j as int], loc_view(loc)))) + csv_cells_from(
                    d@.rows[i as int],
                    loc_view(loc),
                    j as int + 1,
                ));
            }
            j = j + 1;
        }
        out.push(0x0a);
        proof {
            assert(csv_cells_from(d@.rows[i as int], loc_view(loc), j as int)
                =~= Seq::<u8>::empty());
            assert(out@ =~= (r0 + csv_cells_from(d@.rows[i as int], loc_view(loc), 0))
                + seq![0x0au8]);
            assert(csv_rows_from(d@.rows, loc_view(loc), i as int) == csv_cells_from(
                d@.rows[i as int],
                loc_view(loc),
                0,
            ) + seq![0x0au8] + csv_rows_from(d@.rows, loc_view(loc), i as int + 1));
            assert(r0 + (csv_cells_from(d@.rows[i as int], loc_view(loc), 0) + seq![0x0au8]
                + csv_rows_from(d@.rows, loc_view(loc), i as int + 1)) =~= out@ + csv_rows_from(
                d@.rows,
                loc_view(loc),
                i as int + 1,
            ));
        }
        i = i + 1;
    }
    proof {
        assert(csv_rows_from(d@.rows, loc_view(loc), i as int) =~= Seq::<u8>::empty());
        assert(out@ =~= out@ + csv_rows_from(d@.rows, loc_view(loc), i as int));
        assert(out@ =~= csv_text(d@, loc_view(loc)));
    }
    out
}


// ---- SQL ----

pub open spec fn lit_create() -> Seq<u8> {
    seq![0x43u8, 0x52, 0x45, 0x41, 0x54, 0x45, 0x20, 0x54, 0x41, 0x42, 0x4c, 0x45, 0x20]
}

pub open spec fn lit_insert() -> Seq<u8> {
    seq![0x49u8, 0x4e, 0x53, 0x45, 0x52, 0x54, 0x20, 0x49, 0x4e, 0x54, 0x4f, 0x20]
}

pub open spec fn lit_values() -> Seq<u8> {
    seq![0x20u8, 0x56, 0x41, 0x4c, 0x55, 0x45, 0x53, 0x20, 0x28]
}

pub open spec fn lit_stmt_end() -> Seq<u8> {
    seq![0x29u8, 0x3b, 0x0a]
}

pub open spec fn lit_comma_sp() -> Seq<u8> {
    seq![0x2cu8, 0x20]
}

/// SQL type of a column: floats map to REAL, booleans are stored as
/// INTEGER.
pub open spec fn sql_type_text(t: DsType) -> Seq<u8> {
    match t {
        DsType::Integer => seq![0x49u8, 0x4e, 0x54, 0x45, 0x47, 0x45, 0x52],
        DsType::Float => seq![0x52u8, 0x45, 0x41, 0x4c],
        DsType::Text => seq![0x54u8, 0x45, 0x58, 0x54],
        DsType::Boolean => seq![0x49u8, 0x4e, 0x54, 0x45, 0x47, 0x45, 0x52],
    }
}

/// The quoted table identifier: category, underscore, name.
pub open spec fn sql_table_ident(d: DatasheetV) -> Seq<u8> {
    seq![0x22u8] + sql_ident_escape(d.category + seq![0x5fu8] + d.name) + seq![0x22u8]
}

pub open spec fn sql_cols_from(cols: Seq<ColV>, k: int) -> Seq<u8>
    decreases cols.len() - k,
{
    if k < 0 || k >= cols.len() {
        Seq::empty()
    } else {
        (if k > 0 {
            lit_comma_sp()
        } else {
            Seq::empty()
        }) + seq![0x22u8] + sql_ident_escape(cols[k].name) + seq![0x22u8, 0x20] + sql_type_text(
            cols[k].ty,
        ) + sql_cols_from(cols, k + 1)
    }
}

pub open spec fn sql_vals_from(
    row: Seq<CellV>,
    loc: Map<Seq<u8>, Option<Seq<u8>>>,
    k: int,
) -> Seq<u8>
    decreases row.len() - k,
{
    if k < 0 || k >= row.len() {
        Seq::empty()
    } else {
        (if k > 0 {
            lit_comma_sp()
        } else {
            Seq::empty()
        }) + sql_value(row[k], loc) + sql_vals_from(row, loc, k + 1)
    }
}

pub open spec fn sql_inserts_from(
    d: DatasheetV,
    loc: Map<Seq<u8>, Option<Seq<u8>>>,
    i: int,
) -> Seq<u8>
    decreases d.rows.len() - i,
{
    if i < 0 || i >= d.rows.len() {
        Seq::empty()
    } else {
        lit_insert() + sql_table_ident(d) + lit_values() + sql_vals_from(d.rows[i], loc, 0)
            + lit_stmt_end() + sql_inserts_from(d, loc, i + 1)
    }
}

/// SQL text of a datasheet: one CREATE TABLE statement with the mapped
/// column types, then one INSERT per row.
pub open spec fn sql_text(d: DatasheetV, loc: Map<Seq<u8>, Option<Seq<u8>>>) -> Seq<u8> {
    lit_create() + sql_table_ident(d) + seq![0x20u8, 0x28] + sql_cols_from(d.columns, 0)
        + lit_stmt_end() + sql_inserts_from(d, loc, 0)
}

fn build_sql_ident(d: &Datasheet) -> (r: Vec<u8>)
    ensures
        r@ == sql_table_ident(d@),
{
    let mut out: Vec<u8> = Vec::new();
    out.push(0x22);
    let mut joined: Vec<u8> = Vec::new();
    push_bytes(&mut joined, d.category.as_slice());
    joined.push(0x5f);
    push_bytes(&mut joined, d.name.as_slice());
    assert(joined@ =~= d@.category + seq![0x5fu8] + d@.name);
    push_sql_ident_escaped(&mut out, joined.as_slice());
    out.push(0x22);
    assert(out@ =~= sql_table_ident(d@));
    out
}

/// Renders a datasheet as SQL statements.
#[verifier::rlimit(100)]
pub fn render_sql(d: &Datasheet, loc: Option<&LocalizationMap>) -> (r: Vec<u8>)
    ensures
        r@ == sql_text(d@, loc_view(loc)),
{
    let ident = build_sql_ident(d);
    let mut out: Vec<u8> = Vec::new();
    let create: [u8; 13] = [
        0x43,
        0x52,
        0x45,
        0x41,
        0x54,
        0x45,
        0x20,
        0x54,
        0x41,
        0x42,
        0x4c,
        0x45,
        0x20,
    ];
    assert(create@ =~= lit_create());
    push_bytes(&mut out, create.as_slice());
    push_bytes(&mut out, ident.as_slice());
    out.push(0x20);
    out.push(0x28);
    let ghost pre = out@;
    assert(pre =~= lit_create() + sql_table_ident(d@) + seq![0x20u8, 0x28]);
    let mut k: usize = 0;
    while k < d.columns.len()
        invariant
            k <= d.columns@.len(),
            ident@ == sql_table_ident(d@),
            pre + sql_cols_from(d@.columns, 0) == out@ + sql_cols_from(d@.columns, k as int),
        decreases d.columns@.len() - k,
    {
        let ghost o0 = out@;
        if k > 0 {
            out.push(0x2c);
            out.push(0x20);
        }
        out.push(0x22);
        push_sql_ident_escaped(&mut out, d.columns[k].name.as_slice());
        out.push(0x22);
        out.push(0x20);
        match d.columns[k].ty {
            DsType::Integer => {
                let t: [u8; 7] = [0x49, 0x4e, 0x54, 0x45, 0x47, 0x45, 0x52];
                push_bytes(&mut out, t.as_slice());
            },
            DsType::Float => {
                let t: [u8; 4] = [0x52, 0x45, 0x41, 0x4c];
                push_bytes(&mut out, t.as_slice());
            },
            DsType::Text => {
                let t: [u8; 4] = [0x54, 0x45, 0x58, 0x54];
                push_bytes(&mut out, t.as_slice());
            },
            DsType::Boolean => {
                let t: [u8; 7] = [0x49, 0x4e, 0x54, 0x45, 0x47, 0x45, 0x52];
                push_bytes(&mut out, t.as_slice());
            },
        }
        proof {
            assert(d@.columns[k as int].name == d.columns@[k as int].name@);
            assert(d@.columns[k as int].ty == d.columns@[k as int].ty);
            let item = (if k > 0 {
                lit_comma_sp()
            } else {
                Seq::<u8>::empty()
            }) + seq![0x22u8] + sql_ident_escape(d@.columns[k as int].name) + seq![0x22u8, 0x20]
                + sql_type_text(d@.columns[k as int].ty);
            assert(out@ =~= o0 + item);
            assert(o0 + (item + sql_cols_from(d@.columns, k as int + 1)) =~= (o0 + item)
                + sql_cols_from(d@.columns, k as int + 1));
        }
        k = k + 1;
    }
    proof {
        assert(sql_cols_from(d@.columns, k as int) =~= Seq::<u8>::empty());
        assert(out@ =~= out@ + sql_cols_from(d@.columns, k as int));
    }
    out.push(0x29);
    out.push(0x3b);
    out.push(0x0a);
    let ghost hdr = out@;
    assert(hdr =~= lit_create() + sql_table_ident(d@) + seq![0x20u8, 0x28] + sql_cols_from(
        d@.columns,
        0,
    ) + lit_stmt_end());
    let mut i: usize = 0;
    while i < d.rows.len()
        invariant
            i <= d.rows@.len(),
            ident@ == sql_table_ident(d@),
            hdr == lit_create() + sql_table_ident(d@) + seq![0x20u8, 0x28] + sql_cols_from(
                d@.columns,
                0,
            ) + lit_stmt_end(),
            hdr + sql_inserts_from(d@, loc_view(loc), 0) == out@ + sql_inserts_from(
                d@,
                loc_view(loc),
                i as int,
            ),
        decreases d.rows@.len() - i,
    {
        let ghost r0 = out@;
        let ins: [u8; 12] = [0x49, 0x4e, 0x53, 0x45, 0x52, 0x54, 0x20, 0x49, 0x4e, 0x54, 0x4f, 0x20];
        assert(ins@ =~= lit_insert());
        push_bytes(&mut out, ins.as_slice());
        push_bytes(&mut out, ident.as_slice());
        let vals: [u8; 9] = [0x20, 0x56, 0x41, 0x4c, 0x55, 0x45, 0x53, 0x20, 0x28];
        assert(vals@ =~= lit_values());
        push_bytes(&mut out, vals.as_slice());
        let ghost v0 = out@;
        assert(v0 =~= r0 + lit_insert() + sql_table_ident(d@) + lit_values());
        let row = &d.rows[i];
        let mut j: usize = 0;
        while j < row.len()
            invariant
                j <= row@.len(),
                row@ == d.rows@[i as int]@,
                i < d.rows@.len(),
                v0 + sql_vals_from(d@.rows[i as int], loc_view(loc), 0) == out@ + sql_vals_from(
                    d@.rows[i as int],
                    loc_view(loc),
                    j as int,
                ),
            decreases row@.len() - j,
        {
            let ghost o0 = out@;
            if j > 0 {
                out.push(0x2c);
                out.push(0x20);
            }
            push_sql_value(&mut out, &row[j], loc);
            proof {
                assert(d@.rows[i as int][j as int] == row@[j as int]@);
                let item = (if j > 0 {
                    lit_comma_sp()
                } else {
                    Seq::<u8>::empty()
                }) + sql_value(d@.rows[i as int][j as int], loc_view(loc));
                assert(out@ =~= o0 + item);
                assert(o0 + (item + sql_vals_from(d@.rows[i as int], loc_view(loc), j as int + 1))
                    =~= (o0 + item) + sql_vals_from(d@.rows[i as int], loc_view(loc), j as int + 1));
            }
            j = j + 1;
        }
        out.push(0x29);
        out.push(0x3b);
        out.push(0x0a);
        proof {
            assert(sql_vals_from(d@.rows[i as int], loc_view(loc), j as int)
                =~= Seq::<u8>::empty());
            assert(out@ =~= (v0 + sql_vals_from(d@.rows[i as int], loc_view(loc), 0))
                + lit_stmt_end());
            assert(sql_inserts_from(d@, loc_view(loc), i as int) == lit_insert() + sql_table_ident(
                d@,
            ) + lit_values() + sql_vals_from(d@.rows[i as int], loc_view(loc), 0) + lit_stmt_end()
                + sql_inserts_from(d@, loc_view(loc), i as int + 1));
            assert(r0 + (lit_insert() + sql_table_ident(d@) + lit_values() + sql_vals_from(
                d@.rows[i as int],
                loc_view(loc),
                0,
            ) + lit_stmt_end() + sql_inserts_from(d@, loc_view(loc), i as int + 1)) =~= out@
                + sql_inserts_from(d@, loc_view(loc), i as int + 1));
        }
        i = i + 1;
    }
    proof {
        assert(sql_inserts_from(d@, loc_view(loc), i as int) =~= Seq::<u8>::empty());
        assert(out@ =~= out@ + sql_inserts_from(d@, loc_view(loc), i as int));
        assert(out@ =~= sql_text(d@, loc_view(loc)));
    }
    out
}


// ---- YAML ----

/// One YAML line for a cell: the list dash or its continuation indent,
/// the quoted column name, and the value.
pub open spec fn yaml_pair(
    col: ColV,
    c: CellV,
    loc: Map<Seq<u8>, Option<Seq<u8>>>,
    k: int,
) -> Seq<u8> {
    (if k == 0 {
        seq![0x2du8, 0x20]
    } else {
        seq![0x20u8, 0x20]
    }) + seq![0x22u8] + json_escape(col.name) + seq![0x22u8, 0x3a, 0x20] + json_value(c, loc)
        + seq![0x0au8]
}

pub open spec fn yaml_pairs_from(
    cols: Seq<ColV>,
    row: Seq<CellV>,
    loc: Map<Seq<u8>, Option<Seq<u8>>>,
    k: int,
) -> Seq<u8>
    decreases cols.len() - k,
{
    if k < 0 || k >= cols.len() || k >= row.len() {
        Seq::empty()
    } else {
        yaml_pair(cols[k], row[k], loc, k) + yaml_pairs_from(cols, row, loc, k + 1)
    }
}

pub open spec fn yaml_row(
    cols: Seq<ColV>,
    row: Seq<CellV>,
    loc: Map<Seq<u8>, Option<Seq<u8>>>,
) -> Seq<u8> {
    if cols.len() == 0 || row.len() == 0 {
        seq![0x2du8, 0x20, 0x7b, 0x7d, 0x0a]
    } else {
        yaml_pairs_from(cols, row, loc, 0)
    }
}

pub open spec fn yaml_rows_from(
    d: DatasheetV,
    loc: Map<Seq<u8>, Option<Seq<u8>>>,
    i: int,
) -> Seq<u8>
    decreases d.rows.len() - i,
{
    if i < 0 || i >= d.rows.len() {
        Seq::empty()
    } else {
        yaml_row(d.columns, d.rows[i], loc) + yaml_rows_from(d, loc, i + 1)
    }
}

/// YAML text of a datasheet: a list with one mapping per row, keys
/// quoted; an empty table is the empty flow list.
pub open spec fn yaml_text(d: DatasheetV, loc: Map<Seq<u8>, Option<Seq<u8>>>) -> Seq<u8> {
    if d.rows.len() == 0 {
        seq![0x5bu8, 0x5d, 0x0a]
    } else {
        yaml_rows_from(d, loc, 0)
    }
}

/// Renders a datasheet as YAML.
#[verifier::rlimit(100)]
pub fn render_yaml(d: &Datasheet, loc: Option<&LocalizationMap>) -> (r: Vec<u8>)
    ensures
        r@ == yaml_text(d@, loc_view(loc)),
{
    let mut out: Vec<u8> = Vec::new();
    if d.rows.len() == 0 {
        out.push(0x5b);
        out.push(0x5d);
        out.push(0x0a);
        assert(out@ =~= yaml_text(d@, loc_view(loc)));
        return out;
    }
    let mut i: usize = 0;
    while i < d.rows.len()
        invariant
            i <= d.rows@.len(),
            d.rows@.len() > 0,
            yaml_rows_from(d@, loc_view(loc), 0) == out@ + yaml_rows_from(
                d@,
                loc_view(loc),
                i as int,
            ),
        decreases d.rows@.len() - i,
    {
        let ghost r0 = out@;
        let row = &d.rows[i];
        if d.columns.len() == 0 || row.len() == 0 {
            out.push(0x2d);
            out.push(0x20);
            out.push(0x7b);
            out.push(0x7d);
            out.push(0x0a);
            proof {
                assert(d@.rows[i as int].len() == row@.len());
                assert(out@ =~= r0 + yaml_row(d@.columns, d@.rows[i as int], loc_view(loc)));
                assert(r0 + (yaml_row(d@.columns, d@.rows[i as int], loc_view(loc))
                    + yaml_rows_from(d@, loc_view(loc), i as int + 1)) =~= out@ + yaml_rows_from(
                    d@,
                    loc_view(loc),
                    i as int + 1,
                ));
            }
        } else {
            let ghost p0 = out@;
            let mut k: usize = 0;
            let kmax: usize = if d.columns.len() < row.len() {
                d.columns.len()
            } else {
                row.len()
            };
            while k < kmax
                invariant
                    k <= kmax,
                    kmax == if d.columns@.len() < row@.len() {
                        d.columns@.len()
                    } else {
                        row@.len()
                    },
                    row@ == d.rows@[i as int]@,
                    i < d.rows@.len(),
                    p0 + yaml_pairs_from(d@.columns, d@.rows[i as int], loc_view(loc), 0) == out@
                        + yaml_pairs_from(d@.columns, d@.rows[i as int], loc_view(loc), k as int),
                decreases kmax - k,
            {
                let ghost o0 = out@;
                if k == 0 {
                    out.push(0x2d);
                    out.push(0x20);
                } else {
                    out.push(0x20);
                    out.push(0x20);
                }
                out.push(0x22);
                push_json_escaped(&mut out, d.columns[k].name.as_slice());
                out.push(0x22);
                out.push(0x3a);
                out.push(0x20);
                push_json_value(&mut out, &row[k], loc);
                out.push(0x0a);
                proof {
                    assert(d@.columns[k as int].name == d.columns@[k as int].name@);
                    assert(d@.rows[i as int][k as int] == row@[k as int]@);
                    let item = yaml_pair(
                        d@.columns[k as int],
                        d@.rows[i as int][k as int],
                        loc_view(loc),
                        k as int,
                    );
                    assert(out@ =~= o0 + item);
                    assert(o0 + (item + yaml_pairs_from(
                        d@.columns,
                        d@.rows[i as int],
                        loc_view(loc),
                        k as int + 1,
                    )) =~= (o0 + item) + yaml_pairs_from(
                        d@.columns,
                        d@.rows[i as int],
                        loc_view(loc),
                        k as int + 1,
                    ));
                }
                k = k + 1;
            }
            proof {
                assert(yaml_pairs_from(d@.columns, d@.rows[i as int], loc_view(loc), k as int)
                    =~= Seq::<u8>::empty());
                assert(out@ =~= p0 + yaml_pairs_from(
                    d@.columns,
                    d@.rows[i as int],
                    loc_view(loc),
                    0,
                ));
                assert(out@ =~= r0 + yaml_row(d@.columns, d@.rows[i as int], loc_view(loc)));
                assert(r0 + (yaml_row(d@.columns, d@.rows[i as int], loc_view(loc))
                    + yaml_rows_from(d@, loc_view(loc), i as int + 1)) =~= out@ + yaml_rows_from(
                    d@,
                    loc_view(loc),
                    i as int + 1,
                ));
            }
        }
        i = i + 1;
    }
    proof {
        assert(yaml_rows_from(d@, loc_view(loc), i as int) =~= Seq::<u8>::empty());
        assert(out@ =~= out@ + yaml_rows_from(d@, loc_view(loc), i as int));
        assert(out@ =~= yaml_text(d@, loc_view(loc)));
    }
    out
}

// ---- JSON ----

/// A newline and the indent for `depth`, in indented mode; nothing in
/// compact mode.
pub open spec fn nlind(pretty: bool, depth: int) -> Seq<u8> {
    if pretty {
        seq![0x0au8] + spaces(2 * depth)
    } else {
        Seq::empty()
    }
}

fn push_nlind(out: &mut Vec<u8>, pretty: bool, depth: usize)
    requires
        depth <= 2,
    ensures
        final(out)@ == old(out)@ + nlind(pretty, depth as int),
{
    if pretty {
        out.push(0x0a);
        push_spaces(out, 2 * depth);
        assert(out@ =~= old(out)@ + nlind(pretty, depth as int));
    }
    assert(out@ =~= old(out)@ + nlind(pretty, depth as int));
}

/// One JSON member: the quoted, escaped column name, a colon (plus a
/// space in indented mode) and the value.
pub open spec fn json_pair(
    col: ColV,
    c: CellV,
    loc: Map<Seq<u8>, Option<Seq<u8>>>,
    pretty: bool,
) -> Seq<u8> {
    seq![0x22u8] + json_escape(col.name) + seq![0x22u8, 0x3a] + (if pretty {
        seq![0x20u8]
    } else {
        Seq::empty()
    }) + json_value(c, loc)
}

pub open spec fn json_pairs_from(
    cols: Seq<ColV>,
    row: Seq<CellV>,
    loc: Map<Seq<u8>, Option<Seq<u8>>>,
    pretty: bool,
    k: int,
) -> Seq<u8>
    decreases cols.len() - k,
{
    if k < 0 || k >= cols.len() || k >= row.len() {
        Seq::empty()
    } else {
        (if k > 0 {
            seq![0x2cu8]
        } else {
            Seq::empty()
        }) + nlind(pretty, 2) + json_pair(cols[k], row[k], loc, pretty) + json_pairs_from(
            cols,
            row,
            loc,
            pretty,
            k + 1,
        )
    }
}

/// One row as a JSON object of column name to value.
pub open spec fn json_obj(
    cols: Seq<ColV>,
    row: Seq<CellV>,
    loc: Map<Seq<u8>, Option<Seq<u8>>>,
    pretty: bool,
) -> Seq<u8> {
    if cols.len() == 0 || row.len() == 0 {
        seq![0x7bu8, 0x7d]
    } else {
        seq![0x7bu8] + json_pairs_from(cols, row, loc, pretty, 0) + nlind(pretty, 1)
            + seq![0x7du8]
    }
}

pub open spec fn json_rows_from(
    d: DatasheetV,
    loc: Map<Seq<u8>, Option<Seq<u8>>>,
    pretty: bool,
    i: int,
) -> Seq<u8>
    decreases d.rows.len() - i,
{
    if i < 0 || i >= d.rows.len() {
        Seq::empty()
    } else {
        (if i > 0 {
            seq![0x2cu8]
        } else {
            Seq::empty()
        }) + nlind(pretty, 1) + json_obj(d.columns, d.rows[i], loc, pretty) + json_rows_from(
            d,
            loc,
            pretty,
            i + 1,
        )
    }
}

/// JSON text of a datasheet: a list of one object per row; compact, or
/// indented by two spaces per level.
pub open spec fn json_text(d: DatasheetV, loc: Map<Seq<u8>, Option<Seq<u8>>>, pretty: bool) -> Seq<
    u8,
> {
    if d.rows.len() == 0 {
        seq![0x5bu8, 0x5d]
    } else {
        seq![0x5bu8] + json_rows_from(d, loc, pretty, 0) + nlind(pretty, 0) + seq![0x5du8]
    }
}

/// Renders a datasheet as JSON, compact or indented.
#[verifier::rlimit(100)]
pub fn render_json(d: &Datasheet, loc: Option<&LocalizationMap>, pretty: bool) -> (r: Vec<u8>)
    ensures
        r@ == json_text(d@, loc_view(loc), pretty),
{
    let mut out: Vec<u8> = Vec::new();
    if d.rows.len() == 0 {
        out.push(0x5b);
        out.push(0x5d);
        assert(out@ =~= json_text(d@, loc_view(loc), pretty));
        return out;
    }
    out.push(0x5b);
    let ghost pre = out@;
    let mut i: usize = 0;
    while i < d.rows.len()
        invariant
            i <= d.rows@.len(),
            d.rows@.len() > 0,
            pre == seq![0x5bu8],
            pre + json_rows_from(d@, loc_view(loc), pretty, 0) == out@ + json_rows_from(
                d@,
                loc_view(loc),
                pretty,
                i as int,
            ),
        decreases d.rows@.len() - i,
    {
        let ghost r0 = out@;
        if i > 0 {
            out.push(0x2c);
        }
        push_nlind(&mut out, pretty, 1);
        let ghost s0 = out@;
        assert(s0 =~= r0 + ((if i > 0 {
            seq![0x2cu8]
        } else {
            Seq::<u8>::empty()
        }) + nlind(pretty, 1)));
        let row = &d.rows[i];
        if d.columns.len() == 0 || row.len() == 0 {
            out.push(0x7b);
            out.push(0x7d);
            proof {
                assert(d@.rows[i as int].len() == row@.len());
                assert(out@ =~= s0 + json_obj(d@.columns, d@.rows[i as int], loc_view(loc), pretty));
            }
        } else {
            out.push(0x7b);
            let ghost p0 = out@;
            let kmax: usize = if d.columns.len() < row.len() {
                d.columns.len()
            } else {
                row.len()
            };
            let mut k: usize = 0;
            while k < kmax
                invariant
                    k <= kmax,
                    kmax == if d.columns@.len() < row@.len() {
                        d.columns@.len()
                    } else {
                        row@.len()
                    },
                    row@ == d.rows@[i as int]@,
                    i < d.rows@.len(),
                    p0 + json_pairs_from(d@.columns, d@.rows[i as int], loc_view(loc), pretty, 0)
                        == out@ + json_pairs_from(
                        d@.columns,
                        d@.rows[i as int],
                        loc_view(loc),
                        pretty,
                        k as int,
                    ),
                decreases kmax - k,
            {
                let ghost o0 = out@;
                if k > 0 {
                    out.push(0x2c);
                }
                push_nlind(&mut out, pretty, 2);
                out.push(0x22);
                push_json_escaped(&mut out, d.columns[k].name.as_slice());
                out.push(0x22);
                out.push(0x3a);
                if pretty {
                    out.push(0x20);
                }
                push_json_value(&mut out, &row[k], loc);
                proof {
                    assert(d@.columns[k as int].name == d.columns@[k as int].name@);
                    assert(d@.rows[i as int][k as int] == row@[k as int]@);
                    let item = (if k > 0 {
                        seq![0x2cu8]
                    } else {
                        Seq::<u8>::empty()
                    }) + nlind(pretty, 2) + json_pair(
                        d@.columns[k as int],
                        d@.rows[i as int][k as int],
                        loc_view(loc),
                        pretty,
                    );
                    assert(out@ =~= o0 + item);
                    assert(o0 + (item + json_pairs_from(
                        d@.columns,
                        d@.rows[i as int],
                        loc_view(loc),
                        pretty,
                        k as int + 1,
                    )) =~= (o0 + item) + json_pairs_from(
                        d@.columns,
                        d@.rows[i as int],
                        loc_view(loc),
                        pretty,
                        k as int + 1,
                    ));
                }
                k = k + 1;
            }
            push_nlind(&mut out, pretty, 1);
            out.push(0x7d);
            proof {
                assert(json_pairs_from(d@.columns, d@.rows[i as int], loc_view(loc), pretty, k as int)
                    =~= Seq::<u8>::empty());
                assert(out@ =~= ((p0 + json_pairs_from(
                    d@.columns,
                    d@.rows[i as int],
                    loc_view(loc),
                    pretty,
                    0,
                )) + nlind(pretty, 1)) + seq![0x7du8]);
                assert(out@ =~= s0 + json_obj(d@.columns, d@.rows[i as int], loc_view(loc), pretty));
            }
        }
        proof {
            let item = (if i > 0 {
                seq![0x2cu8]
            } else {
                Seq::<u8>::empty()
            }) + nlind(pretty, 1) + json_obj(d@.columns, d@.rows[i as int], loc_view(loc), pretty);
            assert(out@ =~= r0 + item);
            assert(r0 + (item + json_rows_from(d@, loc_view(loc), pretty, i as int + 1)) =~= (r0
                + item) + json_rows_from(d@, loc_view(loc), pretty, i as int + 1));
        }
        i = i + 1;
    }
    push_nlind(&mut out, pretty, 0);
    out.push(0x5d);
    proof {
        assert(json_rows_from(d@, loc_view(loc), pretty, i as int) =~= Seq::<u8>::empty());
        assert(out@ =~= ((pre + json_rows_from(d@, loc_view(loc), pretty, 0)) + nlind(pretty, 0))
            + seq![0x5du8]);
        assert(out@ =~= json_text(d@, loc_view(loc), pretty));
    }
    out
}


/// Law: localization. A string cell whose value is the localization
/// prefix followed by a key renders through the key's translation when
/// the table maps it to one; a key the table does not map, or maps to no
/// translation, leaves the cell's literal value in place.
pub proof fn lemma_localization(key: Seq<u8>, t: Seq<u8>, loc: Map<Seq<u8>, Option<Seq<u8>>>)
    requires
        loc.dom().contains(key),
        loc[key] == Some(t),
    ensures
        localize(seq![0x40u8] + key, loc) == t,
        csv_cell(CellV::Text(seq![0x40u8] + key), loc) == csv_escape(t),
        json_value(CellV::Text(seq![0x40u8] + key), loc) == seq![0x22u8] + json_escape(t)
            + seq![0x22u8],
{
    let s = seq![0x40u8] + key;
    assert(s[0] == 0x40);
    assert(s.skip(1) =~= key);
}

/// Law: localization of an unmapped key. A string cell whose key the
/// table does not hold renders as its literal value.
pub proof fn lemma_localization_unmapped(key: Seq<u8>, loc: Map<Seq<u8>, Option<Seq<u8>>>)
    requires
        !loc.dom().contains(key),
    ensures
        localize(seq![0x40u8] + key, loc) == seq![0x40u8] + key,
{
    let s = seq![0x40u8] + key;
    assert(s[0] == 0x40);
    assert(s.skip(1) =~= key);
}

} // verus!
