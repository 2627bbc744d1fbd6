//! The component that proves `ADD` and `ADDI`: `a = b + c` over two 16-bit halves with a
//! carry bit between them.
use crate::execution::{
    all_zero, all_zero_exprs, bit_of, common_constraint_exprs, common_row, common_row_of,
    constrain_common, evals, execution_entries, execution_lookups, fits, gate, gated, height,
    is_pad_row, lemma_all_zero_evals, lemma_bool_check, lemma_evals_append, lemma_gated_pad,
    lemma_gated_real, lemma_selected_len, lemma_selected_wf, pad_row, push_eval,
    row_instruction, select_steps, selected, steps_wf, trace_log_size, ExecutionPolicy,
    ExecutionRow, FinalizedTrace, ProgramStep,
};
use crate::field::{lemma_fe_zero_small, BaseField};
use crate::instruction::BuiltinOpcode;
use crate::logup::{entry_views, EntryView, LogupTraceBuilder, LookupEntry};
use crate::word::{add_with_carries, bit, u32_to_word, word_value, Word};
use vstd::prelude::*;

verus! {

/// The instruction an addition component proves.
pub trait AddOp {
    fn policy(&self) -> (r: ExecutionPolicy)
        ensures
            r.opcode == BuiltinOpcode::ADD || r.opcode == BuiltinOpcode::ADDI,
            r.reg2_accessed == (r.opcode == BuiltinOpcode::ADD),
            r.reg3_write,
    ;
}

/// `ADD`: the second operand is a register.
pub struct AddReg;

/// `ADDI`: the second operand is an immediate.
pub struct AddImm;

impl AddOp for AddReg {
    fn policy(&self) -> (r: ExecutionPolicy) {
        ExecutionPolicy { opcode: BuiltinOpcode::ADD, reg2_accessed: true, reg3_write: true }
    }
}

impl AddOp for AddImm {
    fn policy(&self) -> (r: ExecutionPolicy) {
        ExecutionPolicy { opcode: BuiltinOpcode::ADDI, reg2_accessed: false, reg3_write: true }
    }
}

/// One row: the shared columns, the three operand words and the carries out of the low
/// and high halves.
#[derive(Clone, Copy, Debug)]
pub struct AddRow {
    pub common: ExecutionRow,
    pub a_val: Word,
    pub b_val: Word,
    pub c_val: Word,
    pub h_carry: [bool; 2],
}

pub struct Add<A> {
    pub op: A,
    pub policy: ExecutionPolicy,
}

/// The low halves add up with the first carry out; the high halves with the first carry
/// in and the second out.
pub open spec fn add_halves(a: Word, b: Word, c: Word, h_carry: [bool; 2]) -> bool {
    &&& a[0] + a[1] * 0x100 + bit(h_carry[0]) * 0x1_0000 == b[0] + b[1] * 0x100 + c[0] + c[1]
        * 0x100
    &&& a[2] + a[3] * 0x100 + bit(h_carry[1]) * 0x1_0000 == b[2] + b[3] * 0x100 + c[2] + c[3]
        * 0x100 + bit(h_carry[0])
}

/// The row of a step: the shared columns, the step's `b` and `c`, and their sum.
pub open spec fn add_row_of(row: AddRow, step: ProgramStep) -> bool {
    &&& common_row_of(row.common, step)
    &&& word_value(row.b_val) == step.value_b
    &&& word_value(row.c_val) == step.value_c
    &&& add_halves(row.a_val, row.b_val, row.c_val, row.h_carry)
}

pub open spec fn add_pad_row(row: AddRow) -> bool {
    &&& is_pad_row(row.common)
    &&& word_value(row.a_val) == 0
    &&& word_value(row.b_val) == 0
    &&& word_value(row.c_val) == 0
    &&& row.h_carry == [false, false]
}

/// The shared constraints, then
/// `(1 − is_pad) · (a(1) + a(2)·2^8 + h_carry(1)·2^16 − b(1) − b(2)·2^8 − c(1) − c(2)·2^8)`
/// and the same for the high half with `h_carry(1)` carried in.
pub open spec fn add_constraint_exprs(row: AddRow) -> Seq<int> {
    let (a, b, c, h) = (row.a_val, row.b_val, row.c_val, row.h_carry);
    common_constraint_exprs(row.common) + seq![
        gated(row.common.is_local_pad, a[0] + a[1] * 0x100 + bit(h[0]) * 0x1_0000 - (b[0] + b[1] * 0x100 + c[0] + c[1] * 0x100)),
        gated(row.common.is_local_pad, a[2] + a[3] * 0x100 + bit(h[1]) * 0x1_0000 - (b[2] + b[3] * 0x100 + c[2] + c[3] * 0x100 + bit(h[0]))),
    ]
}

/// The entries of a list of rows, row after row.
pub open spec fn add_entries(rows: Seq<AddRow>, policy: ExecutionPolicy) -> Seq<EntryView>
    decreases rows.len(),
{
    if rows.len() == 0 {
        Seq::empty()
    } else {
        let r = rows.last();
        add_entries(rows.drop_last(), policy) + execution_entries(
            r.common,
            policy,
            r.a_val,
            r.b_val,
            r.c_val,
        )
    }
}

/// The decoding columns of every row describe a well-formed instruction.
pub open spec fn rows_decodable(rows: Seq<AddRow>, opcode: BuiltinOpcode) -> bool {
    forall|i: int| 0 <= i < rows.len() ==> #[trigger] row_instruction(rows[i].common, opcode).wf()
}

impl<A: AddOp> Add<A> {
    pub open spec fn wf(&self) -> bool {
        &&& self.policy.opcode == BuiltinOpcode::ADD || self.policy.opcode == BuiltinOpcode::ADDI
        &&& self.policy.reg2_accessed == (self.policy.opcode == BuiltinOpcode::ADD)
        &&& self.policy.reg3_write
    }

    pub fn new(op: A) -> (r: Self)
        ensures
            r.wf(),
    {
        let policy = op.policy();
        Add { op, policy }
    }

    /// Adds the operands byte by byte and keeps the carries at the 16-bit boundaries.
    fn execute_step(value_b: Word, value_c: Word) -> (r: (Word, [bool; 2]))
        ensures
            add_halves(r.0, value_b, value_c, r.1),
    {
        let (sum_bytes, carries) = add_with_carries(value_b, value_c);
        (sum_bytes, [carries[1], carries[3]])
    }

    /// Fills the row of one step.
    pub fn generate_trace_row(&self, step: &ProgramStep) -> (r: AddRow)
        ensures
            add_row_of(r, *step),
    {
        let common = common_row(step);
        let value_b: Word = u32_to_word(step.value_b);
        let value_c: Word = u32_to_word(step.value_c);
        let (sum_bytes, h_carry) = Self::execute_step(value_b, value_c);
        AddRow { common, a_val: sum_bytes, b_val: value_b, c_val: value_c, h_carry }
    }

    /// An empty preprocessed trace: this component reads nothing fixed in advance.
    pub fn generate_preprocessed_trace(&self) -> (r: FinalizedTrace<u32>)
        ensures
            r.rows@.len() == 0,
    {
        FinalizedTrace { log_size: 0, rows: Vec::new() }
    }

    /// One row per step of this component's opcode, in order, then padding rows up to the
    /// least power of two (and at least one group of lanes).
    pub fn generate_main_trace(&self, steps: &Vec<ProgramStep>) -> (r: FinalizedTrace<AddRow>)
        requires
            self.wf(),
            steps@.len() <= 0x1_0000_0000,
            steps_wf(steps@),
        ensures
            r.wf(),
            fits(r.log_size, selected(steps@, self.policy.opcode).len()),
            forall|i: int|
                0 <= i < selected(steps@, self.policy.opcode).len() ==> add_row_of(
                    #[trigger] r.rows@[i],
                    selected(steps@, self.policy.opcode)[i],
                ),
            forall|i: int|
                selected(steps@, self.policy.opcode).len() <= i < r.rows@.len() ==> add_pad_row(
                    #[trigger] r.rows@[i],
                ),
            rows_decodable(r.rows@, self.policy.opcode),
    {
        let sel: Vec<ProgramStep> = select_steps(steps, self.policy.opcode);
        proof {
            lemma_selected_len(steps@, self.policy.opcode);
            lemma_selected_wf(steps@, self.policy.opcode);
        }
        let n: usize = sel.len();
        let (log_size, h) = trace_log_size(n);
        let mut rows: Vec<AddRow> = Vec::new();
        let mut i: usize = 0;
        while i < n
            invariant
                n == sel@.len(),
                sel@ == selected(steps@, self.policy.opcode),
                steps_wf(sel@),
                0 <= i <= n,
                rows@.len() == i,
                forall|j: int| 0 <= j < i ==> add_row_of(#[trigger] rows@[j], sel@[j]),
            decreases n - i,
        {
            let row = self.generate_trace_row(&sel[i]);
            rows.push(row);
            i = i + 1;
        }
        while (rows.len() as u64) < h
            invariant
                n == sel@.len(),
                sel@ == selected(steps@, self.policy.opcode),
                h == height(log_size as nat),
                n <= rows@.len() <= h,
                forall|j: int| 0 <= j < n ==> add_row_of(#[trigger] rows@[j], sel@[j]),
                forall|j: int| n <= j < rows@.len() ==> add_pad_row(#[trigger] rows@[j]),
            decreases h - rows@.len(),
        {
            rows.push(
                AddRow {
                    common: pad_row(),
                    a_val: [0u8; 4],
                    b_val: [0u8; 4],
                    c_val: [0u8; 4],
                    h_carry: [false, false],
                },
            );
        }
        proof {
            assert forall|i: int| 0 <= i < rows@.len() implies #[trigger] row_instruction(
                rows@[i].common,
                self.policy.opcode,
            ).wf() by {
                if i < n {
                    assert(sel@[i].instruction.wf());
                }
            }
        }
        FinalizedTrace { log_size, rows }
    }

    /// The lookup entries of one row; the constraint side states the same entries.
    pub fn row_lookups(&self, row: &AddRow) -> (r: Vec<LookupEntry>)
        requires
            row_instruction(row.common, self.policy.opcode).wf(),
        ensures
            entry_views(r@) == execution_entries(
                row.common,
                self.policy,
                row.a_val,
                row.b_val,
                row.c_val,
            ),
    {
        execution_lookups(&row.common, self.policy, row.a_val, row.b_val, row.c_val)
    }

    /// The entries of every row of a main trace.
    pub fn generate_interaction_trace(&self, trace: &FinalizedTrace<AddRow>) -> (r: Vec<
        LookupEntry,
    >)
        requires
            rows_decodable(trace.rows@, self.policy.opcode),
        ensures
            entry_views(r@) == add_entries(trace.rows@, self.policy),
    {
        let mut builder = LogupTraceBuilder::new();
        let mut i: usize = 0;
        while i < trace.rows.len()
            invariant
                rows_decodable(trace.rows@, self.policy.opcode),
                0 <= i <= trace.rows@.len(),
                entry_views(builder.entries@) == add_entries(
                    trace.rows@.take(i as int),
                    self.policy,
                ),
            decreases trace.rows@.len() - i,
        {
            let more = self.row_lookups(&trace.rows[i]);
            builder.extend(more);
            assert(trace.rows@.take(i + 1).drop_last() =~= trace.rows@.take(i as int));
            i = i + 1;
        }
        assert(trace.rows@.take(trace.rows@.len() as int) =~= trace.rows@);
        builder.finalize()
    }

    /// Evaluates every constraint of the component at one row.
    pub fn add_constraints(&self, row: &AddRow) -> (r: Vec<BaseField>)
        ensures
            r@ == evals(add_constraint_exprs(*row)),
    {
        let mut out: Vec<BaseField> = Vec::new();
        constrain_common(&row.common, &mut out);
        let pad: bool = row.common.is_local_pad;
        let a = row.a_val;
        let b = row.b_val;
        let c = row.c_val;
        let h0: i64 = bit_of(row.h_carry[0]);
        let h1: i64 = bit_of(row.h_carry[1]);
        let ghost before = out@;
        push_eval(
            &mut out,
            gate(
                pad,
                a[0] as i64 + a[1] as i64 * 0x100 + h0 * 0x1_0000 - (b[0] as i64 + b[1] as i64
                    * 0x100 + c[0] as i64 + c[1] as i64 * 0x100),
            ),
        );
        push_eval(
            &mut out,
            gate(
                pad,
                a[2] as i64 + a[3] as i64 * 0x100 + h1 * 0x1_0000 - (b[2] as i64 + b[3] as i64
                    * 0x100 + c[2] as i64 + c[3] as i64 * 0x100 + h0),
            ),
        );
        proof {
            let tail = seq![
                gated(pad, a[0] + a[1] * 0x100 + bit(row.h_carry[0]) * 0x1_0000 - (b[0] + b[1] * 0x100 + c[0] + c[1] * 0x100)),
                gated(pad, a[2] + a[3] * 0x100 + bit(row.h_carry[1]) * 0x1_0000 - (b[2] + b[3] * 0x100 + c[2] + c[3] * 0x100 + bit(row.h_carry[0]))),
            ];
            lemma_evals_append(common_constraint_exprs(row.common), tail);
            assert(out@ =~= before + evals(tail));
        }
        out
    }
}

/// On a padding row every constraint vanishes, whatever the other columns hold.
pub proof fn lemma_add_padding_closure(row: AddRow)
    requires
        row.common.is_local_pad,
    ensures
        all_zero_exprs(add_constraint_exprs(row)),
        all_zero(evals(add_constraint_exprs(row))),
{
    let e = add_constraint_exprs(row);
    assert forall|k: int| 0 <= k < e.len() implies #[trigger] e[k] == 0 by {
        lemma_gated_pad(row.common.is_local_pad);
        lemma_bool_check(row.common.clk_carry[0]);
        lemma_bool_check(row.common.clk_carry[1]);
        lemma_bool_check(row.common.pc_carry[0]);
        lemma_bool_check(row.common.pc_carry[1]);
    }
    lemma_all_zero_evals(e);
}

/// Every row that a step fills satisfies every constraint.
pub proof fn lemma_add_row_satisfies(row: AddRow, step: ProgramStep)
    requires
        add_row_of(row, step),
    ensures
        all_zero(evals(add_constraint_exprs(row))),
{
    let e = add_constraint_exprs(row);
    lemma_gated_real(false);
    lemma_bool_check(row.common.clk_carry[0]);
    lemma_bool_check(row.common.clk_carry[1]);
    lemma_bool_check(row.common.pc_carry[0]);
    lemma_bool_check(row.common.pc_carry[1]);
    assert forall|k: int| 0 <= k < e.len() implies #[trigger] e[k] == 0 by {}
    lemma_all_zero_evals(e);
}

/// A real row whose constraints all vanish in the field holds `a = (b + c) mod 2^32`.
pub proof fn lemma_add_soundness(row: AddRow)
    requires
        !row.common.is_local_pad,
        all_zero(evals(add_constraint_exprs(row))),
    ensures
        word_value(row.a_val) == (word_value(row.b_val) + word_value(row.c_val)) % 0x1_0000_0000,
{
    let e = add_constraint_exprs(row);
    lemma_gated_real(false);
    let (a, b, c, h) = (row.a_val, row.b_val, row.c_val, row.h_carry);
    let lo = a[0] + a[1] * 0x100 + bit(h[0]) * 0x1_0000 - (b[0] + b[1] * 0x100 + c[0] + c[1]
        * 0x100);
    let hi = a[2] + a[3] * 0x100 + bit(h[1]) * 0x1_0000 - (b[2] + b[3] * 0x100 + c[2] + c[3]
        * 0x100 + bit(h[0]));
    assert(e[8] == lo);
    assert(e[9] == hi);
    assert(evals(e)[8].v == 0);
    assert(evals(e)[9].v == 0);
    lemma_fe_zero_small(lo);
    lemma_fe_zero_small(hi);
    let total = word_value(a) + bit(h[1]) * 0x1_0000_0000;
    assert(total == word_value(b) + word_value(c));
    vstd::arithmetic::div_mod::lemma_fundamental_div_mod_converse(
        word_value(b) + word_value(c),
        0x1_0000_0000,
        bit(h[1]),
        word_value(a),
    );
}

} // verus!
