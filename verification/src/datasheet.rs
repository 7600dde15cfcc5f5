//! The datasheet decoder: parses the engine's columnar-table format.
//!
//! Layout, all counts little-endian 32-bit:
//! magic `11 00 00 00`, table-name reference, category-name reference,
//! row count, column count, string-pool length, the pool bytes, one
//! descriptor per column (name reference, type tag), then the row-major
//! cell matrix of fixed four-byte records. A name or string reference is a
//! byte offset into the pool; the string runs to the first NUL or the pool
//! end. Type tags: 1 integer, 2 float, 3 string, 4 boolean.
use vstd::arithmetic::mul::{lemma_mul_inequality, lemma_mul_is_distributive_add_other_way};
use vstd::prelude::*;
use vstd::slice::slice_subrange;

use crate::bytes::{has_prefix, le32_at, read_le32, starts_with_bytes};
use crate::classify::datasheet_magic;
use crate::error::PakError;

verus! {

/// Column type of a datasheet.
#[derive(Clone, Copy, PartialEq, Eq, Structural, Debug)]
pub enum DsType {
    Integer,
    Float,
    Text,
    Boolean,
}

/// One cell of a datasheet. A float cell keeps the 32-bit pattern it was
/// stored as; rendering interprets it.
#[derive(Clone, PartialEq, Eq, Debug)]
pub enum DsCell {
    Int(i32),
    Float(u32),
    Text(Vec<u8>),
    Bool(bool),
}

/// Mathematical value of one cell.
pub enum CellV {
    Int(int),
    Float(u32),
    Text(Seq<u8>),
    Bool(bool),
}

impl View for DsCell {
    type V = CellV;

    open spec fn view(&self) -> CellV {
        match self {
            DsCell::Int(v) => CellV::Int(*v as int),
            DsCell::Float(bits) => CellV::Float(*bits),
            DsCell::Text(s) => CellV::Text(s@),
            DsCell::Bool(b) => CellV::Bool(*b),
        }
    }
}

/// One column descriptor.
#[derive(Clone, PartialEq, Eq, Debug)]
pub struct DsColumn {
    pub name: Vec<u8>,
    pub ty: DsType,
}

/// Mathematical value of a column descriptor.
pub struct ColV {
    pub name: Seq<u8>,
    pub ty: DsType,
}

impl View for DsColumn {
    type V = ColV;

    open spec fn view(&self) -> ColV {
        ColV { name: self.name@, ty: self.ty }
    }
}

/// A parsed datasheet: headers and row-major cells.
#[derive(Clone, PartialEq, Eq, Debug)]
pub struct Datasheet {
    pub name: Vec<u8>,
    pub category: Vec<u8>,
    pub columns: Vec<DsColumn>,
    pub rows: Vec<Vec<DsCell>>,
}

/// Mathematical value of a datasheet.
pub struct DatasheetV {
    pub name: Seq<u8>,
    pub category: Seq<u8>,
    pub columns: Seq<ColV>,
    pub rows: Seq<Seq<CellV>>,
}

impl View for Datasheet {
    type V = DatasheetV;

    open spec fn view(&self) -> DatasheetV {
        DatasheetV {
            name: self.name@,
            category: self.category@,
            columns: self.columns@.map_values(|c: DsColumn| c@),
            rows: self.rows@.map_values(|r: Vec<DsCell>| r@.map_values(|c: DsCell| c@)),
        }
    }
}

/// A cell value carries the variant its column's type demands.
pub open spec fn cell_matches(c: CellV, ty: DsType) -> bool {
    match ty {
        DsType::Integer => c is Int,
        DsType::Float => c is Float,
        DsType::Text => c is Text,
        DsType::Boolean => c is Bool,
    }
}

/// Well-formedness of a parsed datasheet: every row is as wide as the
/// header, and every cell carries its column's type.
pub open spec fn ds_wf(d: DatasheetV) -> bool {
    forall|i: int|
        0 <= i < d.rows.len() ==> (#[trigger] d.rows[i]).len() == d.columns.len() && forall|j: int|
            0 <= j < d.columns.len() ==> cell_matches(#[trigger] d.rows[i][j], d.columns[j].ty)
}

// ---- the wire layout, as functions of the raw buffer ----

pub open spec fn ds_name_ref(b: Seq<u8>) -> int {
    le32_at(b, 4)
}

pub open spec fn ds_cat_ref(b: Seq<u8>) -> int {
    le32_at(b, 8)
}

pub open spec fn ds_nrows(b: Seq<u8>) -> int {
    le32_at(b, 12)
}

pub open spec fn ds_ncols(b: Seq<u8>) -> int {
    le32_at(b, 16)
}

pub open spec fn ds_pool_len(b: Seq<u8>) -> int {
    le32_at(b, 20)
}

pub open spec fn ds_pool(b: Seq<u8>) -> Seq<u8> {
    b.subrange(24, 24 + ds_pool_len(b))
}

pub open spec fn ds_cols_base(b: Seq<u8>) -> int {
    24 + ds_pool_len(b)
}

pub open spec fn ds_cells_base(b: Seq<u8>) -> int {
    ds_cols_base(b) + 8 * ds_ncols(b)
}

pub open spec fn ds_col_name_ref(b: Seq<u8>, j: int) -> int {
    le32_at(b, ds_cols_base(b) + 8 * j)
}

pub open spec fn ds_col_tag(b: Seq<u8>, j: int) -> int {
    le32_at(b, ds_cols_base(b) + 8 * j + 4)
}

pub open spec fn ds_cell_raw(b: Seq<u8>, i: int, j: int) -> int {
    le32_at(b, ds_cells_base(b) + 4 * (i * ds_ncols(b) + j))
}

/// The string a pool reference denotes: the bytes from the offset to the
/// first NUL, or to the pool's end.
pub open spec fn pool_str(pool: Seq<u8>, off: int) -> Seq<u8>
    decreases pool.len() - off,
{
    if off < 0 || off >= pool.len() {
        Seq::empty()
    } else if pool[off] == 0 {
        Seq::empty()
    } else {
        seq![pool[off]] + pool_str(pool, off + 1)
    }
}

pub open spec fn ty_of_tag(tag: int) -> DsType {
    if tag == 1 {
        DsType::Integer
    } else if tag == 2 {
        DsType::Float
    } else if tag == 3 {
        DsType::Text
    } else {
        DsType::Boolean
    }
}

/// Signed value of a 32-bit two's-complement pattern.
pub open spec fn as_i32(u: int) -> int {
    if u >= 0x80000000 {
        u - 0x100000000
    } else {
        u
    }
}

pub open spec fn ds_cell_of(b: Seq<u8>, i: int, j: int) -> CellV {
    let raw = ds_cell_raw(b, i, j);
    match ty_of_tag(ds_col_tag(b, j)) {
        DsType::Integer => CellV::Int(as_i32(raw)),
        DsType::Float => CellV::Float(raw as u32),
        DsType::Text => CellV::Text(pool_str(ds_pool(b), raw)),
        DsType::Boolean => CellV::Bool(raw != 0),
    }
}

/// The buffer declares a coherent layout: the magic, and a total length
/// that is exactly header plus pool plus descriptors plus cells.
pub open spec fn ds_len_ok(b: Seq<u8>) -> bool {
    b.len() >= 24 && has_prefix(b, datasheet_magic()) && 24 + ds_pool_len(b) + 8 * ds_ncols(b) + 4
        * (ds_nrows(b) * ds_ncols(b)) == b.len()
}

/// Full validity: coherent layout, all pool references in range, all type
/// tags known.
pub open spec fn ds_valid(b: Seq<u8>) -> bool {
    ds_len_ok(b) && ds_name_ref(b) <= ds_pool_len(b) && ds_cat_ref(b) <= ds_pool_len(b) && (forall|
        j: int,
    |
        0 <= j < ds_ncols(b) ==> #[trigger] ds_col_name_ref(b, j) <= ds_pool_len(b) && 1
            <= ds_col_tag(b, j) <= 4) && (forall|i: int, j: int|
        0 <= i < ds_nrows(b) && 0 <= j < ds_ncols(b) && ds_col_tag(b, j) == 3
            ==> #[trigger] ds_cell_raw(b, i, j) <= ds_pool_len(b))
}

/// The datasheet a valid buffer denotes.
pub open spec fn ds_view_of(b: Seq<u8>) -> DatasheetV {
    DatasheetV {
        name: pool_str(ds_pool(b), ds_name_ref(b)),
        category: pool_str(ds_pool(b), ds_cat_ref(b)),
        columns: Seq::new(
            ds_ncols(b) as nat,
            |j: int|
                ColV {
                    name: pool_str(ds_pool(b), ds_col_name_ref(b, j)),
                    ty: ty_of_tag(ds_col_tag(b, j)),
                },
        ),
        rows: Seq::new(
            ds_nrows(b) as nat,
            |i: int| Seq::new(ds_ncols(b) as nat, |j: int| ds_cell_of(b, i, j)),
        ),
    }
}

/// What parsing must yield: the denoted datasheet for a valid buffer,
/// nothing for any other.
pub open spec fn ds_parse_spec(b: Seq<u8>) -> Option<DatasheetV> {
    if ds_valid(b) {
        Some(ds_view_of(b))
    } else {
        None
    }
}

/// Reads the NUL-terminated string at `off` in the pool.
fn read_pool_str(pool: &[u8], off: usize) -> (r: Vec<u8>)
    requires
        off <= pool@.len(),
    ensures
        r@ == pool_str(pool@, off as int),
{
    let mut out: Vec<u8> = Vec::new();
    let mut cur: usize = off;
    while cur < pool.len() && pool[cur] != 0
        invariant
            off <= cur <= pool@.len(),
            pool_str(pool@, off as int) == out@ + pool_str(pool@, cur as int),
        decreases pool@.len() - cur,
    {
        let ghost o0 = out@;
        out.push(pool[cur]);
        proof {
            assert(pool_str(pool@, cur as int) == seq![pool@[cur as int]] + pool_str(
                pool@,
                cur as int + 1,
            ));
            assert(o0 + (seq![pool@[cur as int]] + pool_str(pool@, cur as int + 1)) =~= (o0
                + seq![pool@[cur as int]]) + pool_str(pool@, cur as int + 1));
            assert(out@ =~= o0 + seq![pool@[cur as int]]);
        }
        cur = cur + 1;
    }
    proof {
        assert(pool_str(pool@, cur as int) =~= Seq::<u8>::empty());
        assert(out@ =~= out@ + pool_str(pool@, cur as int));
    }
    out
}

/// Parses a datasheet buffer.
///
/// Succeeds exactly on valid buffers and then returns the datasheet the
/// buffer denotes, which is well-formed; any other buffer is rejected
/// with `ParseError`.
pub fn parse_datasheet(b: &[u8]) -> (r: Result<Datasheet, PakError>)
    ensures
        r is Ok <==> ds_valid(b@),
        match r {
            Ok(d) => ds_parse_spec(b@) == Some(d@) && ds_wf(d@),
            Err(e) => e == PakError::ParseError,
        },
{
    let blen: usize = b.len();
    if blen < 24 {
        return Err(PakError::ParseError);
    }
    let magic: [u8; 4] = [0x11, 0x00, 0x00, 0x00];
    assert(magic@ =~= datasheet_magic());
    if !starts_with_bytes(b, magic.as_slice()) {
        return Err(PakError::ParseError);
    }
    let name_ref = read_le32(b, 4);
    let cat_ref = read_le32(b, 8);
    let nrows = read_le32(b, 12);
    let ncols = read_le32(b, 16);
    let pool_len = read_le32(b, 20);
    proof {
        assert((4 * (nrows as int)) * (ncols as int) <= 4 * 0xffffffff * 0xffffffff)
            by (nonlinear_arith)
            requires
                0 <= nrows as int <= 0xffffffff,
                0 <= ncols as int <= 0xffffffff,
        ;
        assert((4 * (nrows as int)) * (ncols as int) >= 0) by (nonlinear_arith)
            requires
                0 <= nrows as int,
                0 <= ncols as int,
        ;
    }
    let total: u128 = 24u128 + (pool_len as u128) + 8 * (ncols as u128) + 4 * (nrows as u128)
        * (ncols as u128);
    if total != blen as u128 {
        proof {
            assert(4 * ((nrows as int) * (ncols as int)) == 4 * (nrows as int) * (ncols as int))
                by (nonlinear_arith);
            assert(!ds_len_ok(b@));
        }
        return Err(PakError::ParseError);
    }
    proof {
        assert(4 * ((nrows as int) * (ncols as int)) == 4 * (nrows as int) * (ncols as int))
            by (nonlinear_arith);
        assert(ds_len_ok(b@));
        assert((nrows as int) * (ncols as int) >= 0) by (nonlinear_arith);
    }
    if name_ref > pool_len || cat_ref > pool_len {
        return Err(PakError::ParseError);
    }
    let cols_base: usize = 24 + (pool_len as usize);
    let cells_base: usize = cols_base + 8 * (ncols as usize);
    let pool = slice_subrange(b, 24, cols_base);
    assert(pool@ == ds_pool(b@));
    let name = read_pool_str(pool, name_ref as usize);
    let category = read_pool_str(pool, cat_ref as usize);

    // column descriptors
    let mut columns: Vec<DsColumn> = Vec::new();
    let mut j: usize = 0;
    while j < ncols as usize
        invariant
            j <= ncols as usize,
            ds_len_ok(b@),
            b@.len() == blen,
            pool_len == ds_pool_len(b@),
            nrows == ds_nrows(b@),
            ncols == ds_ncols(b@),
            cols_base == ds_cols_base(b@),
            cells_base == ds_cells_base(b@),
            pool@ == ds_pool(b@),
            (nrows as int) * (ncols as int) >= 0,
            columns@.len() == j,
            forall|k: int|
                0 <= k < j ==> #[trigger] ds_col_name_ref(b@, k) <= ds_pool_len(b@) && 1
                    <= ds_col_tag(b@, k) <= 4,
            forall|k: int|
                0 <= k < j ==> (#[trigger] columns@[k])@ == (ColV {
                    name: pool_str(ds_pool(b@), ds_col_name_ref(b@, k)),
                    ty: ty_of_tag(ds_col_tag(b@, k)),
                }),
        decreases ncols as int - j,
    {
        proof {
            assert(8 * (j as int) + 8 <= 8 * (ncols as int)) by (nonlinear_arith)
                requires
                    j < ncols as usize,
            ;
            assert((nrows as int) * (ncols as int) >= 0);
        }
        let off: usize = cols_base + 8 * j;
        let cref = read_le32(b, off);
        let tag = read_le32(b, off + 4);
        if cref > pool_len || tag < 1 || tag > 4 {
            proof {
                assert(ds_col_name_ref(b@, j as int) == cref as int);
                assert(ds_col_tag(b@, j as int) == tag as int);
                assert(!ds_valid(b@));
            }
            return Err(PakError::ParseError);
        }
        let cname = read_pool_str(pool, cref as usize);
        let ty = if tag == 1 {
            DsType::Integer
        } else if tag == 2 {
            DsType::Float
        } else if tag == 3 {
            DsType::Text
        } else {
            DsType::Boolean
        };
        columns.push(DsColumn { name: cname, ty });
        j = j + 1;
    }

    // cell matrix
    let mut rows: Vec<Vec<DsCell>> = Vec::new();
    let mut i: usize = 0;
    while i < nrows as usize
        invariant
            i <= nrows as usize,
            ds_len_ok(b@),
            b@.len() == blen,
            pool_len == ds_pool_len(b@),
            nrows == ds_nrows(b@),
            ncols == ds_ncols(b@),
            cols_base == ds_cols_base(b@),
            cells_base == ds_cells_base(b@),
            pool@ == ds_pool(b@),
            columns@.len() == ncols as int,
            forall|k: int|
                0 <= k < ncols as int ==> #[trigger] ds_col_name_ref(b@, k) <= ds_pool_len(b@) && 1
                    <= ds_col_tag(b@, k) <= 4,
            forall|k: int|
                0 <= k < ncols as int ==> (#[trigger] columns@[k]).ty == ty_of_tag(
                    ds_col_tag(b@, k),
                ),
            rows@.len() == i,
            forall|a: int, c: int|
                0 <= a < i && 0 <= c < ncols as int && ds_col_tag(b@, c) == 3
                    ==> #[trigger] ds_cell_raw(b@, a, c) <= ds_pool_len(b@),
            forall|a: int|
                0 <= a < i ==> (#[trigger] rows@[a])@.len() == ncols as int,
            forall|a: int, c: int|
                0 <= a < i && 0 <= c < ncols as int ==> (#[trigger] rows@[a]@[c])@ == ds_cell_of(
                    b@,
                    a,
                    c,
                ),
        decreases nrows as int - i,
    {
        let mut row: Vec<DsCell> = Vec::new();
        let mut j2: usize = 0;
        while j2 < ncols as usize
            invariant
                i < nrows as usize,
                j2 <= ncols as usize,
                ds_len_ok(b@),
                b@.len() == blen,
                pool_len == ds_pool_len(b@),
                nrows == ds_nrows(b@),
                ncols == ds_ncols(b@),
                cols_base == ds_cols_base(b@),
                cells_base == ds_cells_base(b@),
                pool@ == ds_pool(b@),
                columns@.len() == ncols as int,
                forall|k: int|
                    0 <= k < ncols as int ==> (#[trigger] columns@[k]).ty == ty_of_tag(
                        ds_col_tag(b@, k),
                    ),
                row@.len() == j2,
                forall|c: int|
                    0 <= c < j2 && ds_col_tag(b@, c) == 3 ==> #[trigger] ds_cell_raw(
                        b@,
                        i as int,
                        c,
                    ) <= ds_pool_len(b@),
                forall|c: int|
                    0 <= c < j2 ==> (#[trigger] row@[c])@ == ds_cell_of(b@, i as int, c),
            decreases ncols as int - j2,
        {
            proof {
                lemma_cell_offset(b@, i as int, j2 as int);
            }
            let idx: usize = (i * (ncols as usize)) + j2;
            proof {
                assert(4 * (idx as int) + 4 <= 4 * ((nrows as int) * (ncols as int)));
            }
            let off: usize = cells_base + 4 * idx;
            let raw = read_le32(b, off);
            let cell = match columns[j2].ty {
                DsType::Integer => {
                    let wide: i64 = raw as i64;
                    let v: i64 = if wide >= 0x80000000 {
                        wide - 0x100000000
                    } else {
                        wide
                    };
                    DsCell::Int(v as i32)
                },
                DsType::Float => DsCell::Float(raw),
                DsType::Text => {
                    if raw > pool_len {
                        proof {
                            assert(ds_cell_raw(b@, i as int, j2 as int) == raw as int);
                            assert(ds_col_tag(b@, j2 as int) == 3);
                            assert(!ds_valid(b@));
                        }
                        return Err(PakError::ParseError);
                    }
                    DsCell::Text(read_pool_str(pool, raw as usize))
                },
                DsType::Boolean => DsCell::Bool(raw != 0),
            };
            row.push(cell);
            j2 = j2 + 1;
        }
        rows.push(row);
        i = i + 1;
    }

    let d = Datasheet { name, category, columns, rows };
    proof {
        assert(ds_valid(b@));
        assert(d@.columns =~= ds_view_of(b@).columns);
        assert(forall|a: int|
            0 <= a < nrows as int ==> (#[trigger] d@.rows[a]) =~= ds_view_of(b@).rows[a]);
        assert(d@.rows =~= ds_view_of(b@).rows);
        lemma_valid_wf(b@);
    }
    Ok(d)
}

/// The byte offset of cell (i, j) lies within the buffer.
proof fn lemma_cell_offset(b: Seq<u8>, i: int, j: int)
    requires
        ds_len_ok(b),
        0 <= i < ds_nrows(b),
        0 <= j < ds_ncols(b),
    ensures
        0 <= i * ds_ncols(b) + j,
        4 * (i * ds_ncols(b) + j) + 4 <= 4 * (ds_nrows(b) * ds_ncols(b)),
        ds_cells_base(b) + 4 * (i * ds_ncols(b) + j) + 4 <= b.len(),
{
    let r = ds_nrows(b);
    let c = ds_ncols(b);
    assert(i * c + j >= 0) by (nonlinear_arith)
        requires
            i >= 0 && c >= 0 && j >= 0,
    ;
    assert(i * c + j + 1 <= r * c) by (nonlinear_arith)
        requires
            0 <= i < r && 0 <= j < c,
    ;
    assert(4 * (i * c + j) + 4 <= 4 * (r * c)) by (nonlinear_arith)
        requires
            i * c + j + 1 <= r * c,
    ;
}

/// A valid buffer denotes a well-formed datasheet.
pub proof fn lemma_valid_wf(b: Seq<u8>)
    requires
        ds_valid(b),
    ensures
        ds_wf(ds_view_of(b)),
{
    let d = ds_view_of(b);
    assert forall|i: int| 0 <= i < d.rows.len() implies (#[trigger] d.rows[i]).len()
        == d.columns.len() && forall|j: int|
        0 <= j < d.columns.len() ==> cell_matches(#[trigger] d.rows[i][j], d.columns[j].ty) by {
        assert forall|j: int| 0 <= j < d.columns.len() implies cell_matches(
            #[trigger] d.rows[i][j],
            d.columns[j].ty,
        ) by {
            assert(d.rows[i][j] == ds_cell_of(b, i, j));
            assert(d.columns[j].ty == ty_of_tag(ds_col_tag(b, j)));
        }
    }
}

} // verus!
