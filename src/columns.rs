//! The physical layout of a finished trace: each row type lays its cells out in a fixed
//! order of field-element columns, and a trace becomes one column per cell, each as tall as
//! the trace.
use crate::add::AddRow;
use crate::bitwise::BitwiseRow;
use crate::cpu::CpuRow;
use crate::execution::{bit_of, ExecutionRow, FinalizedTrace};
use crate::field::{fe, BaseField};
use crate::store::StoreRow;
use crate::word::{bit, Word};
use vstd::prelude::*;

verus! {

/// The field element of an integer cell.
pub open spec fn cell(x: int) -> BaseField {
    BaseField { v: fe(x) as u32 }
}

/// A row with a fixed layout of cells.
pub trait TraceRow: Sized {
    spec fn spec_values(&self) -> Seq<BaseField>;

    spec fn spec_width() -> nat;

    fn width() -> (r: usize)
        ensures
            r == Self::spec_width(),
    ;

    /// The row's cells, in column order.
    fn values(&self) -> (r: Vec<BaseField>)
        ensures
            r@ == self.spec_values(),
            r@.len() == Self::spec_width(),
    ;
}

/// Columns of equal height.
pub struct FinalizedColumns {
    pub log_size: u32,
    pub cols: Vec<Vec<BaseField>>,
}

impl FinalizedColumns {
    pub open spec fn height_is(&self, n: nat) -> bool {
        forall|c: int| 0 <= c < self.cols@.len() ==> (#[trigger] self.cols@[c])@.len() == n
    }

    /// Places the columns of `other`, of the same height, after these.
    pub fn concat(self, other: FinalizedColumns) -> (r: FinalizedColumns)
        requires
            self.log_size == other.log_size,
        ensures
            r.log_size == self.log_size,
            r.cols@ == self.cols@ + other.cols@,
    {
        let mut cols = self.cols;
        let mut more = other.cols;
        let ghost a = cols@;
        let ghost b = more@;
        cols.append(&mut more);
        assert(cols@ =~= a + b);
        FinalizedColumns { log_size: self.log_size, cols }
    }
}

/// Lays a trace out in columns: cell `c` of row `i` is row `i` of column `c`.
pub fn to_columns<R: TraceRow>(trace: &FinalizedTrace<R>) -> (r: FinalizedColumns)
    ensures
        r.log_size == trace.log_size,
        r.cols@.len() == R::spec_width(),
        r.height_is(trace.rows@.len()),
        forall|c: int, i: int|
            0 <= c < R::spec_width() && 0 <= i < trace.rows@.len() ==> #[trigger] r.cols@[c]@[i]
                == trace.rows@[i].spec_values()[c],
{
    let w: usize = R::width();
    let mut rows: Vec<Vec<BaseField>> = Vec::new();
    let mut i: usize = 0;
    while i < trace.rows.len()
        invariant
            w == R::spec_width(),
            0 <= i <= trace.rows@.len(),
            rows@.len() == i,
            forall|j: int| 0 <= j < i ==> (#[trigger] rows@[j])@ == trace.rows@[j].spec_values(),
            forall|j: int| 0 <= j < i ==> (#[trigger] rows@[j])@.len() == w,
        decreases trace.rows@.len() - i,
    {
        rows.push(trace.rows[i].values());
        i = i + 1;
    }
    let mut cols: Vec<Vec<BaseField>> = Vec::new();
    let mut c: usize = 0;
    while c < w
        invariant
            w == R::spec_width(),
            rows@.len() == trace.rows@.len(),
            forall|j: int| 0 <= j < rows@.len() ==> (#[trigger] rows@[j])@ == trace.rows@[j].spec_values(),
            forall|j: int| 0 <= j < rows@.len() ==> (#[trigger] rows@[j])@.len() == w,
            0 <= c <= w,
            cols@.len() == c,
            forall|k: int| 0 <= k < c ==> (#[trigger] cols@[k])@.len() == rows@.len(),
            forall|k: int, j: int|
                0 <= k < c && 0 <= j < rows@.len() ==> #[trigger] cols@[k]@[j]
                    == trace.rows@[j].spec_values()[k],
        decreases w - c,
    {
        let mut col: Vec<BaseField> = Vec::new();
        let mut j: usize = 0;
        while j < rows.len()
            invariant
                w == R::spec_width(),
                c < w,
                forall|t: int| 0 <= t < rows@.len() ==> (#[trigger] rows@[t])@ == trace.rows@[t].spec_values(),
                forall|t: int| 0 <= t < rows@.len() ==> (#[trigger] rows@[t])@.len() == w,
                0 <= j <= rows@.len(),
                col@.len() == j,
                forall|t: int| 0 <= t < j ==> #[trigger] col@[t] == trace.rows@[t].spec_values()[c as int],
            decreases rows@.len() - j,
        {
            assert(rows@[j as int]@.len() == w);
            col.push(rows[j][c]);
            j = j + 1;
        }
        cols.push(col);
        c = c + 1;
    }
    FinalizedColumns { log_size: trace.log_size, cols }
}

fn push_cell(out: &mut Vec<BaseField>, x: u32)
    ensures
        final(out)@ == old(out)@.push(cell(x as int)),
{
    out.push(BaseField::from_u32(x));
}

fn push_word(out: &mut Vec<BaseField>, w: Word)
    ensures
        final(out)@ == old(out)@ + word_cells(w),
{
    push_cell(out, w[0] as u32);
    push_cell(out, w[1] as u32);
    push_cell(out, w[2] as u32);
    push_cell(out, w[3] as u32);
    assert(out@ =~= old(out)@ + word_cells(w));
}

pub open spec fn word_cells(w: Word) -> Seq<BaseField> {
    seq![cell(w[0] as int), cell(w[1] as int), cell(w[2] as int), cell(w[3] as int)]
}

/// The shared columns: `is_local_pad`, `pc`, `pc_next`, `pc_carry`, `clk`, `clk_next`,
/// `clk_carry` (two limbs each), then `op_a`, `op_b`, `op_c`.
pub open spec fn common_cells(r: ExecutionRow) -> Seq<BaseField> {
    seq![
        cell(bit(r.is_local_pad)), cell(r.pc[0] as int), cell(r.pc[1] as int), cell(r.pc_next[0] as int), cell(r.pc_next[1] as int),
        cell(bit(r.pc_carry[0])), cell(bit(r.pc_carry[1])), cell(r.clk[0] as int), cell(r.clk[1] as int), cell(r.clk_next[0] as int),
        cell(r.clk_next[1] as int), cell(bit(r.clk_carry[0])), cell(bit(r.clk_carry[1])), cell(r.op_a as int), cell(r.op_b as int), cell(r.op_c as int),
    ]
}

fn push_common(out: &mut Vec<BaseField>, r: &ExecutionRow)
    ensures
        final(out)@ == old(out)@ + common_cells(*r),
{
    push_cell(out, bit_of(r.is_local_pad) as u32);
    push_cell(out, r.pc[0] as u32);
    push_cell(out, r.pc[1] as u32);
    push_cell(out, r.pc_next[0] as u32);
    push_cell(out, r.pc_next[1] as u32);
    push_cell(out, bit_of(r.pc_carry[0]) as u32);
    push_cell(out, bit_of(r.pc_carry[1]) as u32);
    push_cell(out, r.clk[0] as u32);
    push_cell(out, r.clk[1] as u32);
    push_cell(out, r.clk_next[0] as u32);
    push_cell(out, r.clk_next[1] as u32);
    push_cell(out, bit_of(r.clk_carry[0]) as u32);
    push_cell(out, bit_of(r.clk_carry[1]) as u32);
    push_cell(out, r.op_a as u32);
    push_cell(out, r.op_b as u32);
    push_cell(out, r.op_c);
    assert(out@ =~= old(out)@ + common_cells(*r));
}

impl TraceRow for AddRow {
    /// The shared columns, `a_val`, `b_val`, `c_val` (four bytes each), `h_carry` (two).
    open spec fn spec_values(&self) -> Seq<BaseField> {
        common_cells(self.common) + word_cells(self.a_val) + word_cells(self.b_val) + word_cells(
            self.c_val,
        ) + seq![cell(bit(self.h_carry[0])), cell(bit(self.h_carry[1]))]
    }

    open spec fn spec_width() -> nat {
        30
    }

    fn width() -> (r: usize) {
        30
    }

    fn values(&self) -> (r: Vec<BaseField>) {
        let mut out: Vec<BaseField> = Vec::new();
        push_common(&mut out, &self.common);
        push_word(&mut out, self.a_val);
        push_word(&mut out, self.b_val);
        push_word(&mut out, self.c_val);
        push_cell(&mut out, bit_of(self.h_carry[0]) as u32);
        push_cell(&mut out, bit_of(self.h_carry[1]) as u32);
        assert(out@ =~= self.spec_values());
        out
    }
}

impl TraceRow for StoreRow {
    /// The shared columns, `a_val`, `b_val`, `c_val`, `h_ram_base_addr` (four bytes each),
    /// `h_carry` (two), `h_ram_base_addr_aux`.
    open spec fn spec_values(&self) -> Seq<BaseField> {
        common_cells(self.common) + word_cells(self.a_val) + word_cells(self.b_val) + word_cells(
            self.c_val,
        ) + word_cells(self.h_ram_base_addr) + seq![cell(bit(self.h_carry[0])), cell(bit(self.h_carry[1])), cell(self.h_ram_base_addr_aux as int)]
    }

    open spec fn spec_width() -> nat {
        35
    }

    fn width() -> (r: usize) {
        35
    }

    fn values(&self) -> (r: Vec<BaseField>) {
        let mut out: Vec<BaseField> = Vec::new();
        push_common(&mut out, &self.common);
        push_word(&mut out, self.a_val);
        push_word(&mut out, self.b_val);
        push_word(&mut out, self.c_val);
        push_word(&mut out, self.h_ram_base_addr);
        push_cell(&mut out, bit_of(self.h_carry[0]) as u32);
        push_cell(&mut out, bit_of(self.h_carry[1]) as u32);
        push_cell(&mut out, self.h_ram_base_addr_aux as u32);
        assert(out@ =~= self.spec_values());
        out
    }
}

impl TraceRow for BitwiseRow {
    /// The shared columns, `a_val`, `b_val`, `c_val`, then their high nibbles (four each).
    open spec fn spec_values(&self) -> Seq<BaseField> {
        common_cells(self.common) + word_cells(self.a_val) + word_cells(self.b_val) + word_cells(
            self.c_val,
        ) + word_cells(self.a_val_high) + word_cells(self.b_val_high) + word_cells(
            self.c_val_high,
        )
    }

    open spec fn spec_width() -> nat {
        40
    }

    fn width() -> (r: usize) {
        40
    }

    fn values(&self) -> (r: Vec<BaseField>) {
        let mut out: Vec<BaseField> = Vec::new();
        push_common(&mut out, &self.common);
        push_word(&mut out, self.a_val);
        push_word(&mut out, self.b_val);
        push_word(&mut out, self.c_val);
        push_word(&mut out, self.a_val_high);
        push_word(&mut out, self.b_val_high);
        push_word(&mut out, self.c_val_high);
        assert(out@ =~= self.spec_values());
        out
    }
}

impl TraceRow for CpuRow {
    /// `is_pad`, `pc` (two limbs), `pc_aux`.
    open spec fn spec_values(&self) -> Seq<BaseField> {
        seq![cell(bit(self.is_pad)), cell(self.pc[0] as int), cell(self.pc[1] as int), cell(self.pc_aux as int)]
    }

    open spec fn spec_width() -> nat {
        4
    }

    fn width() -> (r: usize) {
        4
    }

    fn values(&self) -> (r: Vec<BaseField>) {
        let mut out: Vec<BaseField> = Vec::new();
        push_cell(&mut out, bit_of(self.is_pad) as u32);
        push_cell(&mut out, self.pc[0] as u32);
        push_cell(&mut out, self.pc[1] as u32);
        push_cell(&mut out, self.pc_aux as u32);
        assert(out@ =~= self.spec_values());
        out
    }
}

} // verus!
