//! The components that prove `AND`, `OR`, `XOR` and their immediate forms. Each byte of
//! the result is checked, one 4-bit nibble at a time, against a shared truth table through
//! the bitwise lookup; the rows used are tallied in the side note, from which the
//! multiplicity component consumes them.
use crate::execution::{
    all_zero, all_zero_exprs, common_constraint_exprs, common_row, common_row_of,
    constrain_common, evals, execution_entries, execution_lookups, fits, is_pad_row,
    lemma_all_zero_evals, lemma_bool_check, lemma_gated_pad, lemma_gated_real,
    lemma_selected_len, lemma_selected_wf, pad_row, row_instruction, select_steps, selected,
    steps_wf, trace_log_size, bit_of, ExecutionPolicy, ExecutionRow, FinalizedTrace, ProgramStep,
};
use crate::field::BaseField;
use crate::instruction::{BuiltinOpcode, Format};
use crate::logup::{entry_views, EntryView, LogupTraceBuilder, LookupEntry, Relation};
use crate::side_note::{tally, BitwiseAccumulator, SideNote, TABLE_SIZE};
use crate::word::{bit, u32_to_word, word_value, Word};
use vstd::prelude::*;

verus! {

pub const AND_LOOKUP_IDX: u32 = 1;

pub const OR_LOOKUP_IDX: u32 = 2;

pub const XOR_LOOKUP_IDX: u32 = 3;

/// The truth table an opcode's nibbles are looked up in.
pub open spec fn lookup_idx_of(op: BuiltinOpcode) -> u32 {
    match op {
        BuiltinOpcode::AND | BuiltinOpcode::ANDI => AND_LOOKUP_IDX,
        BuiltinOpcode::OR | BuiltinOpcode::ORI => OR_LOOKUP_IDX,
        BuiltinOpcode::XOR | BuiltinOpcode::XORI => XOR_LOOKUP_IDX,
        _ => 0,
    }
}

pub open spec fn is_bitwise(op: BuiltinOpcode) -> bool {
    lookup_idx_of(op) != 0
}

/// The operation of truth table `idx` on two bytes (or two nibbles).
pub open spec fn bitwise_op(idx: u32, x: u8, y: u8) -> u8 {
    if idx == AND_LOOKUP_IDX {
        x & y
    } else if idx == OR_LOOKUP_IDX {
        x | y
    } else {
        x ^ y
    }
}

pub fn lookup_idx(op: BuiltinOpcode) -> (r: u32)
    ensures
        r == lookup_idx_of(op),
{
    match op {
        BuiltinOpcode::AND | BuiltinOpcode::ANDI => AND_LOOKUP_IDX,
        BuiltinOpcode::OR | BuiltinOpcode::ORI => OR_LOOKUP_IDX,
        BuiltinOpcode::XOR | BuiltinOpcode::XORI => XOR_LOOKUP_IDX,
        _ => 0,
    }
}

pub fn apply_bitwise(idx: u32, x: u8, y: u8) -> (r: u8)
    ensures
        r == bitwise_op(idx, x, y),
{
    if idx == AND_LOOKUP_IDX {
        x & y
    } else if idx == OR_LOOKUP_IDX {
        x | y
    } else {
        x ^ y
    }
}

/// The instruction a bitwise component proves.
pub trait BitwiseOp {
    fn policy(&self) -> (r: ExecutionPolicy)
        ensures
            is_bitwise(r.opcode),
            r.reg2_accessed == (r.opcode.spec_format() == Format::Register),
            r.reg3_write,
    ;
}

pub struct And;

pub struct Andi;

pub struct Or;

pub struct Ori;

pub struct Xor;

pub struct Xori;

impl BitwiseOp for And {
    fn policy(&self) -> (r: ExecutionPolicy) {
        ExecutionPolicy { opcode: BuiltinOpcode::AND, reg2_accessed: true, reg3_write: true }
    }
}

impl BitwiseOp for Andi {
    fn policy(&self) -> (r: ExecutionPolicy) {
        ExecutionPolicy { opcode: BuiltinOpcode::ANDI, reg2_accessed: false, reg3_write: true }
    }
}

impl BitwiseOp for Or {
    fn policy(&self) -> (r: ExecutionPolicy) {
        ExecutionPolicy { opcode: BuiltinOpcode::OR, reg2_accessed: true, reg3_write: true }
    }
}

impl BitwiseOp for Ori {
    fn policy(&self) -> (r: ExecutionPolicy) {
        ExecutionPolicy { opcode: BuiltinOpcode::ORI, reg2_accessed: false, reg3_write: true }
    }
}

impl BitwiseOp for Xor {
    fn policy(&self) -> (r: ExecutionPolicy) {
        ExecutionPolicy { opcode: BuiltinOpcode::XOR, reg2_accessed: true, reg3_write: true }
    }
}

impl BitwiseOp for Xori {
    fn policy(&self) -> (r: ExecutionPolicy) {
        ExecutionPolicy { opcode: BuiltinOpcode::XORI, reg2_accessed: false, reg3_write: true }
    }
}

/// One row: the shared columns, the three operand words, and the high nibble of each of
/// their bytes (the low nibble is the byte less sixteen times the high one).
#[derive(Clone, Copy, Debug)]
pub struct BitwiseRow {
    pub common: ExecutionRow,
    pub a_val: Word,
    pub b_val: Word,
    pub c_val: Word,
    pub a_val_high: [u8; 4],
    pub b_val_high: [u8; 4],
    pub c_val_high: [u8; 4],
}

pub struct Bitwise<T> {
    pub op: T,
    pub policy: ExecutionPolicy,
    pub lookup_idx: u32,
}

/// The high-nibble columns hold the high nibbles of the bytes.
pub open spec fn nibbles_wf(row: BitwiseRow) -> bool {
    forall|k: int|
        0 <= k < 4 ==> #[trigger] row.a_val_high[k] == row.a_val[k] / 16 && row.b_val_high[k]
            == row.b_val[k] / 16 && row.c_val_high[k] == row.c_val[k] / 16
}

pub open spec fn bitwise_row_of(row: BitwiseRow, step: ProgramStep, idx: u32) -> bool {
    &&& common_row_of(row.common, step)
    &&& word_value(row.b_val) == step.value_b
    &&& word_value(row.c_val) == step.value_c
    &&& forall|k: int| 0 <= k < 4 ==> #[trigger] row.a_val[k] == bitwise_op(idx, row.b_val[k], row.c_val[k])
    &&& nibbles_wf(row)
}

pub open spec fn bitwise_pad_row(row: BitwiseRow) -> bool {
    &&& is_pad_row(row.common)
    &&& word_value(row.a_val) == 0
    &&& word_value(row.b_val) == 0
    &&& word_value(row.c_val) == 0
    &&& nibbles_wf(row)
}

/// Nibble `p` of a word: the low nibble of byte `p / 2` for even `p`, the high one for odd.
pub open spec fn nib(w: Word, high: [u8; 4], p: int) -> u32 {
    if p % 2 == 0 {
        (w[p / 2] - 16 * high[p / 2]) as u32
    } else {
        high[p / 2] as u32
    }
}

/// The key of nibble `p`: table, `b`'s nibble, `c`'s nibble, `a`'s nibble.
pub open spec fn nib_key(row: BitwiseRow, idx: u32, p: int) -> Seq<u32> {
    seq![idx, nib(row.b_val, row.b_val_high, p), nib(row.c_val, row.c_val_high, p), nib(row.a_val, row.a_val_high, p)]
}

/// The eight nibble lookups of a row, each provided with numerator `1 − is_pad`.
pub open spec fn nibble_entries(row: BitwiseRow, idx: u32) -> Seq<EntryView> {
    Seq::new(
        8,
        |p: int| (Relation::BitwiseInstr, 1 - bit(row.common.is_local_pad), nib_key(row, idx, p)),
    )
}

pub open spec fn bitwise_row_entries(row: BitwiseRow, policy: ExecutionPolicy, idx: u32) -> Seq<
    EntryView,
> {
    nibble_entries(row, idx) + execution_entries(
        row.common,
        policy,
        row.a_val,
        row.b_val,
        row.c_val,
    )
}

pub open spec fn bitwise_entries(rows: Seq<BitwiseRow>, policy: ExecutionPolicy, idx: u32) -> Seq<
    EntryView,
>
    decreases rows.len(),
{
    if rows.len() == 0 {
        Seq::empty()
    } else {
        bitwise_entries(rows.drop_last(), policy, idx) + bitwise_row_entries(
            rows.last(),
            policy,
            idx,
        )
    }
}

pub open spec fn bitwise_rows_ok(rows: Seq<BitwiseRow>, opcode: BuiltinOpcode) -> bool {
    forall|i: int|
        0 <= i < rows.len() ==> #[trigger] row_instruction(rows[i].common, opcode).wf()
            && nibbles_wf(rows[i])
}

fn high_nibbles(w: Word) -> (r: [u8; 4])
    ensures
        forall|k: int| 0 <= k < 4 ==> #[trigger] r[k] == w[k] / 16,
{
    [w[0] / 16, w[1] / 16, w[2] / 16, w[3] / 16]
}

impl<T: BitwiseOp> Bitwise<T> {
    pub open spec fn wf(&self) -> bool {
        &&& is_bitwise(self.policy.opcode)
        &&& self.policy.reg2_accessed == (self.policy.opcode.spec_format() == Format::Register)
        &&& self.policy.reg3_write
        &&& self.lookup_idx == lookup_idx_of(self.policy.opcode)
    }

    pub fn new(op: T) -> (r: Self)
        ensures
            r.wf(),
    {
        let policy = op.policy();
        let idx = lookup_idx(policy.opcode);
        Bitwise { op, policy, lookup_idx: idx }
    }

    /// Fills the row of one step.
    pub fn generate_trace_row(&self, step: &ProgramStep) -> (r: BitwiseRow)
        ensures
            bitwise_row_of(r, *step, self.lookup_idx),
    {
        let common = common_row(step);
        let b: Word = u32_to_word(step.value_b);
        let c: Word = u32_to_word(step.value_c);
        let idx = self.lookup_idx;
        let a: Word = [
            apply_bitwise(idx, b[0], c[0]),
            apply_bitwise(idx, b[1], c[1]),
            apply_bitwise(idx, b[2], c[2]),
            apply_bitwise(idx, b[3], c[3]),
        ];
        let row = BitwiseRow {
            common,
            a_val: a,
            b_val: b,
            c_val: c,
            a_val_high: high_nibbles(a),
            b_val_high: high_nibbles(b),
            c_val_high: high_nibbles(c),
        };
        assert(forall|k: int| 0 <= k < 4 ==> #[trigger] row.a_val[k] == bitwise_op(idx, row.b_val[k], row.c_val[k]));
        row
    }

    /// An empty preprocessed trace: this component reads nothing fixed in advance.
    pub fn generate_preprocessed_trace(&self) -> (r: FinalizedTrace<u32>)
        ensures
            r.rows@.len() == 0,
    {
        FinalizedTrace { log_size: 0, rows: Vec::new() }
    }

    /// One row per step of this component's opcode, in order, then padding rows up to the
    /// least power of two (and at least one group of lanes).
    fn generate_rows(&self, steps: &Vec<ProgramStep>) -> (r: FinalizedTrace<BitwiseRow>)
        requires
            self.wf(),
            steps@.len() <= 0x1_0000_0000,
            steps_wf(steps@),
        ensures
            r.wf(),
            fits(r.log_size, selected(steps@, self.policy.opcode).len()),
            forall|i: int|
                0 <= i < selected(steps@, self.policy.opcode).len() ==> bitwise_row_of(
                    #[trigger] r.rows@[i],
                    selected(steps@, self.policy.opcode)[i],
                    self.lookup_idx,
                ),
            forall|i: int|
                selected(steps@, self.policy.opcode).len() <= i < r.rows@.len()
                    ==> bitwise_pad_row(#[trigger] r.rows@[i]),
            bitwise_rows_ok(r.rows@, self.policy.opcode),
    {
        let op = self.policy.opcode;
        let sel: Vec<ProgramStep> = select_steps(steps, op);
        proof {
            lemma_selected_len(steps@, op);
            lemma_selected_wf(steps@, op);
        }
        let n: usize = sel.len();
        let (log_size, h) = trace_log_size(n);
        let mut rows: Vec<BitwiseRow> = Vec::new();
        let mut i: usize = 0;
        while i < n
            invariant
                n == sel@.len(),
                sel@ == selected(steps@, op),
                steps_wf(sel@),
                0 <= i <= n,
                rows@.len() == i,
                forall|j: int|
                    0 <= j < i ==> bitwise_row_of(#[trigger] rows@[j], sel@[j], self.lookup_idx),
            decreases n - i,
        {
            let row = self.generate_trace_row(&sel[i]);
            rows.push(row);
            i = i + 1;
        }
        while (rows.len() as u64) < h
            invariant
                n == sel@.len(),
                h == crate::execution::height(log_size as nat),
                n <= rows@.len() <= h,
                forall|j: int|
                    0 <= j < n ==> bitwise_row_of(#[trigger] rows@[j], sel@[j], self.lookup_idx),
                forall|j: int| n <= j < rows@.len() ==> bitwise_pad_row(#[trigger] rows@[j]),
            decreases h - rows@.len(),
        {
            rows.push(
                BitwiseRow {
                    common: pad_row(),
                    a_val: [0u8; 4],
                    b_val: [0u8; 4],
                    c_val: [0u8; 4],
                    a_val_high: [0u8; 4],
                    b_val_high: [0u8; 4],
                    c_val_high: [0u8; 4],
                },
            );
        }
        proof {
            assert forall|i: int| 0 <= i < rows@.len() implies #[trigger] row_instruction(
                rows@[i].common,
                op,
            ).wf() && nibbles_wf(rows@[i]) by {
                if i < n {
                    assert(sel@[i].instruction.wf());
                }
            }
        }
        FinalizedTrace { log_size, rows }
    }

    /// The main trace: one row per step of this component's opcode, in order, then padding
    /// rows up to the least power of two (and at least one group of lanes). The nibble pairs its real rows use are
    /// added to this component's truth table in the side note.
    pub fn generate_main_trace(&self, steps: &Vec<ProgramStep>, side_note: &mut SideNote) -> (r:
        FinalizedTrace<BitwiseRow>)
        requires
            self.wf(),
            steps@.len() <= 0x1_0000_0000,
            steps_wf(steps@),
            old(side_note).wf(),
            forall|x: int|
                0 <= x < TABLE_SIZE ==> old(side_note).counts(self.lookup_idx)[x] + 8
                    * steps@.len() <= u64::MAX,
        ensures
            r.wf(),
            fits(r.log_size, selected(steps@, self.policy.opcode).len()),
            forall|i: int|
                0 <= i < selected(steps@, self.policy.opcode).len() ==> bitwise_row_of(
                    #[trigger] r.rows@[i],
                    selected(steps@, self.policy.opcode)[i],
                    self.lookup_idx,
                ),
            forall|i: int|
                selected(steps@, self.policy.opcode).len() <= i < r.rows@.len()
                    ==> bitwise_pad_row(#[trigger] r.rows@[i]),
            bitwise_rows_ok(r.rows@, self.policy.opcode),
            final(side_note).wf(),
            forall|x: int|
                0 <= x < TABLE_SIZE ==> #[trigger] final(side_note).counts(self.lookup_idx)[x]
                    == old(side_note).counts(self.lookup_idx)[x] + tally(r.rows@, x),
            forall|j: u32|
                j != self.lookup_idx && (j == AND_LOOKUP_IDX || j == OR_LOOKUP_IDX || j
                    == XOR_LOOKUP_IDX) ==> #[trigger] final(side_note).counts(j) == old(
                    side_note,
                ).counts(j),
    {
        let trace = self.generate_rows(steps);
        proof {
            lemma_selected_len(steps@, self.policy.opcode);
            assert forall|i: int| 0 <= i < trace.rows@.len() implies nibbles_wf(
                #[trigger] trace.rows@[i],
            ) by {
                assert(row_instruction(trace.rows@[i].common, self.policy.opcode).wf());
            }
            assert forall|x: int| 0 <= x < TABLE_SIZE implies tally(trace.rows@, x) <= 8
                * steps@.len() by {
                crate::side_note::lemma_tally_bound(trace.rows@, x);
                let n = selected(steps@, self.policy.opcode).len();
                crate::side_note::lemma_tally_pad_suffix(trace.rows@, x, n);
                assert(tally(trace.rows@.take(n as int), x) <= 8 * n) by {
                    crate::side_note::lemma_tally_bound(trace.rows@.take(n as int), x);
                }
            }
        }
        proof {
            vstd::arithmetic::power2::lemma2_to64();
            if trace.log_size < 32 {
                vstd::arithmetic::power2::lemma_pow2_strictly_increases(
                    trace.log_size as nat,
                    32,
                );
            }
        }
        let local = BitwiseAccumulator::from_rows(&trace.rows);
        side_note.merge(self.lookup_idx, &local);
        trace
    }

    /// The lookup entries of one row; the constraint side states the same entries.
    pub fn row_lookups(&self, row: &BitwiseRow) -> (r: Vec<LookupEntry>)
        requires
            row_instruction(row.common, self.policy.opcode).wf(),
            nibbles_wf(*row),
        ensures
            entry_views(r@) == bitwise_row_entries(*row, self.policy, self.lookup_idx),
    {
        let g: i64 = 1 - bit_of(row.common.is_local_pad);
        let idx = self.lookup_idx;
        let mut r: Vec<LookupEntry> = Vec::new();
        let mut k: usize = 0;
        while k < 4
            invariant
                nibbles_wf(*row),
                idx == self.lookup_idx,
                g == 1 - bit(row.common.is_local_pad),
                0 <= k <= 4,
                entry_views(r@) == nibble_entries(*row, idx).take(2 * k as int),
            decreases 4 - k,
        {
            assert(row.a_val_high[k as int] == row.a_val[k as int] / 16);
            let lo: Vec<u32> = vec![
                idx,
                (row.b_val[k] - 16 * row.b_val_high[k]) as u32,
                (row.c_val[k] - 16 * row.c_val_high[k]) as u32,
                (row.a_val[k] - 16 * row.a_val_high[k]) as u32,
            ];
            let hi: Vec<u32> = vec![
                idx,
                row.b_val_high[k] as u32,
                row.c_val_high[k] as u32,
                row.a_val_high[k] as u32,
            ];
            let ghost lov = lo@;
            let ghost hiv = hi@;
            let ghost before = entry_views(r@);
            r.push(LookupEntry { relation: Relation::BitwiseInstr, multiplicity: g, key: lo });
            r.push(LookupEntry { relation: Relation::BitwiseInstr, multiplicity: g, key: hi });
            proof {
                let kk = k as int;
                assert((2 * kk) / 2 == kk && (2 * kk) % 2 == 0);
                assert((2 * kk + 1) / 2 == kk && (2 * kk + 1) % 2 == 1);
                assert(lov =~= nib_key(*row, idx, 2 * kk));
                assert(hiv =~= nib_key(*row, idx, 2 * kk + 1));
                assert(entry_views(r@) =~= before + seq![
                    (Relation::BitwiseInstr, g as int, lov),
                    (Relation::BitwiseInstr, g as int, hiv),
                ]);
                assert(entry_views(r@) =~= nibble_entries(*row, idx).take(2 * (kk + 1)));
            }
            k = k + 1;
        }
        assert(nibble_entries(*row, idx).take(8) =~= nibble_entries(*row, idx));
        let ghost first = entry_views(r@);
        let more = execution_lookups(&row.common, self.policy, row.a_val, row.b_val, row.c_val);
        let ghost more_v = entry_views(more@);
        let mut more = more;
        r.append(&mut more);
        assert(entry_views(r@) =~= first + more_v);
        r
    }

    /// The entries of every row of a main trace.
    pub fn generate_interaction_trace(&self, trace: &FinalizedTrace<BitwiseRow>) -> (r: Vec<
        LookupEntry,
    >)
        requires
            bitwise_rows_ok(trace.rows@, self.policy.opcode),
        ensures
            entry_views(r@) == bitwise_entries(trace.rows@, self.policy, self.lookup_idx),
    {
        let mut builder = LogupTraceBuilder::new();
        let mut i: usize = 0;
        while i < trace.rows.len()
            invariant
                bitwise_rows_ok(trace.rows@, self.policy.opcode),
                0 <= i <= trace.rows@.len(),
                entry_views(builder.entries@) == bitwise_entries(
                    trace.rows@.take(i as int),
                    self.policy,
                    self.lookup_idx,
                ),
            decreases trace.rows@.len() - i,
        {
            assert(row_instruction(trace.rows@[i as int].common, self.policy.opcode).wf());
            let more = self.row_lookups(&trace.rows[i]);
            builder.extend(more);
            assert(trace.rows@.take(i + 1).drop_last() =~= trace.rows@.take(i as int));
            i = i + 1;
        }
        assert(trace.rows@.take(trace.rows@.len() as int) =~= trace.rows@);
        builder.finalize()
    }

    /// Evaluates every constraint of the component at one row: the clock and pc
    /// increments; the result is checked through the nibble lookups.
    pub fn add_constraints(&self, row: &BitwiseRow) -> (r: Vec<BaseField>)
        ensures
            r@ == evals(common_constraint_exprs(row.common)),
    {
        let mut out: Vec<BaseField> = Vec::new();
        constrain_common(&row.common, &mut out);
        assert(out@ =~= evals(common_constraint_exprs(row.common)));
        out
    }
}

/// On a padding row every constraint vanishes, whatever the other columns hold.
pub proof fn lemma_bitwise_padding_closure(row: BitwiseRow)
    requires
        row.common.is_local_pad,
    ensures
        all_zero_exprs(common_constraint_exprs(row.common)),
        all_zero(evals(common_constraint_exprs(row.common))),
{
    let e = common_constraint_exprs(row.common);
    lemma_gated_pad(row.common.is_local_pad);
    lemma_bool_check(row.common.clk_carry[0]);
    lemma_bool_check(row.common.clk_carry[1]);
    lemma_bool_check(row.common.pc_carry[0]);
    lemma_bool_check(row.common.pc_carry[1]);
    assert forall|k: int| 0 <= k < e.len() implies #[trigger] e[k] == 0 by {}
    lemma_all_zero_evals(e);
}

/// Every row that a step fills satisfies every constraint.
pub proof fn lemma_bitwise_row_satisfies(row: BitwiseRow, step: ProgramStep, idx: u32)
    requires
        bitwise_row_of(row, step, idx),
    ensures
        all_zero(evals(common_constraint_exprs(row.common))),
{
    let e = common_constraint_exprs(row.common);
    lemma_gated_real(false);
    lemma_bool_check(row.common.clk_carry[0]);
    lemma_bool_check(row.common.clk_carry[1]);
    lemma_bool_check(row.common.pc_carry[0]);
    lemma_bool_check(row.common.pc_carry[1]);
    assert forall|k: int| 0 <= k < e.len() implies #[trigger] e[k] == 0 by {}
    lemma_all_zero_evals(e);
}

} // verus!
