//! Bookkeeping shared by every straight-line execution component: the executed step,
//! the program-counter and clock columns, the trace height, the constraints on the
//! increments, and the lookups that tie a row to the program, the register file and the
//! execution order.
use crate::field::{fe, BaseField};
use crate::instruction::{BuiltinOpcode, Instruction};
use crate::logup::{entry_views, EntryView, LookupEntry, Relation};
use crate::word::{
    add_16bit_with_carry, bit, limbs_value, u32_to_16bit_parts_le, u32_to_word, Word, WORD_SIZE,
};
use vstd::arithmetic::power2::{lemma2_to64, lemma_pow2_unfold, pow2};
use vstd::prelude::*;

verus! {

/// The least log-height of any trace: one group of vector lanes.
pub const LOG_N_LANES: u32 = 4;

/// One executed instruction as the interpreter reports it: the values of the registers
/// named by `op_a` and `op_b`, and of `op_c` (a register's value, or the sign-extended
/// immediate).
#[derive(Clone, Copy, Debug)]
pub struct ProgramStep {
    pub pc: u32,
    pub timestamp: u32,
    pub instruction: Instruction,
    pub value_a: u32,
    pub value_b: u32,
    pub value_c: u32,
}

/// The columns every execution component holds: pad flag, pc and clock with their
/// successors and carries (each as two 16-bit limbs), and the decoded operands.
#[derive(Clone, Copy, Debug)]
pub struct ExecutionRow {
    pub is_local_pad: bool,
    pub pc: [u16; 2],
    pub pc_next: [u16; 2],
    pub pc_carry: [bool; 2],
    pub clk: [u16; 2],
    pub clk_next: [u16; 2],
    pub clk_carry: [bool; 2],
    pub op_a: u8,
    pub op_b: u8,
    pub op_c: u32,
}

/// The number of rows of a trace of the given log-height.
pub open spec fn height(log: nat) -> nat {
    pow2(log)
}

/// The log-height of a trace for `n` real rows: the least power of two that holds them,
/// and no less than one group of lanes.
/// Also returns that height.
pub fn trace_log_size(n: usize) -> (r: (u32, u64))
    requires
        n <= 0x1_0000_0000,
    ensures
        LOG_N_LANES <= r.0 <= 32,
        n <= height(r.0 as nat),
        r.0 == LOG_N_LANES || height((r.0 - 1) as nat) < n,
        r.1 == height(r.0 as nat),
{
    let mut log: u32 = LOG_N_LANES;
    let mut h: u64 = 16;
    proof {
        lemma2_to64();
    }
    while h < n as u64
        invariant
            LOG_N_LANES <= log <= 32,
            h == height(log as nat),
            log == LOG_N_LANES || height((log - 1) as nat) < n,
            n <= 0x1_0000_0000,
            h <= 0x1_0000_0000,
        decreases 0x1_0000_0000 - h,
    {
        proof {
            lemma2_to64();
            lemma_pow2_unfold((log + 1) as nat);
        }
        h = h * 2;
        log = log + 1;
    }
    (log, h)
}

/// A finished main trace: `rows` has exactly `2^log_size` rows.
pub struct FinalizedTrace<R> {
    pub log_size: u32,
    pub rows: Vec<R>,
}

impl<R> FinalizedTrace<R> {
    pub open spec fn wf(&self) -> bool {
        self.rows@.len() == height(self.log_size as nat)
    }
}

/// The steps of a run that carry the given opcode, in order.
pub open spec fn selected(steps: Seq<ProgramStep>, op: BuiltinOpcode) -> Seq<ProgramStep>
    decreases steps.len(),
{
    if steps.len() == 0 {
        Seq::empty()
    } else {
        let prev = selected(steps.drop_last(), op);
        if steps.last().instruction.opcode == op {
            prev.push(steps.last())
        } else {
            prev
        }
    }
}

pub proof fn lemma_selected_len(steps: Seq<ProgramStep>, op: BuiltinOpcode)
    ensures
        selected(steps, op).len() <= steps.len(),
        forall|j: int|
            0 <= j < selected(steps, op).len() ==> (#[trigger] selected(steps, op)[j]).instruction.opcode
                == op,
    decreases steps.len(),
{
    if steps.len() > 0 {
        lemma_selected_len(steps.drop_last(), op);
    }
}

/// Picks out the steps that a component of the given opcode proves.
pub fn select_steps(steps: &Vec<ProgramStep>, op: BuiltinOpcode) -> (r: Vec<ProgramStep>)
    ensures
        r@ == selected(steps@, op),
{
    let mut r: Vec<ProgramStep> = Vec::new();
    let mut i: usize = 0;
    while i < steps.len()
        invariant
            0 <= i <= steps@.len(),
            r@ == selected(steps@.take(i as int), op),
        decreases steps@.len() - i,
    {
        assert(steps@.take(i + 1).drop_last() =~= steps@.take(i as int));
        if steps[i].instruction.opcode == op {
            r.push(steps[i]);
        }
        i = i + 1;
    }
    assert(steps@.take(steps@.len() as int) =~= steps@);
    r
}

/// The row holds the step's pc and clock, their successors `pc + 4` and `clk + 1` with the
/// carries out of each limb, and the step's operands.
pub open spec fn common_row_of(row: ExecutionRow, step: ProgramStep) -> bool {
    &&& !row.is_local_pad
    &&& limbs_value(row.pc) == step.pc
    &&& row.pc_next[0] as int + bit(row.pc_carry[0]) * 0x1_0000 == row.pc[0] as int + 4
    &&& row.pc_next[1] as int + bit(row.pc_carry[1]) * 0x1_0000 == row.pc[1] as int + bit(
        row.pc_carry[0],
    )
    &&& limbs_value(row.clk) == step.timestamp
    &&& row.clk_next[0] as int + bit(row.clk_carry[0]) * 0x1_0000 == row.clk[0] as int + 1
    &&& row.clk_next[1] as int + bit(row.clk_carry[1]) * 0x1_0000 == row.clk[1] as int + bit(
        row.clk_carry[0],
    )
    &&& row.op_a == step.instruction.op_a
    &&& row.op_b == step.instruction.op_b
    &&& row.op_c == step.instruction.op_c
}

/// A padding row: the pad flag set and every other column zero.
pub open spec fn is_pad_row(row: ExecutionRow) -> bool {
    &&& row.is_local_pad
    &&& row.pc == [0u16, 0u16]
    &&& row.pc_next == [0u16, 0u16]
    &&& row.pc_carry == [false, false]
    &&& row.clk == [0u16, 0u16]
    &&& row.clk_next == [0u16, 0u16]
    &&& row.clk_carry == [false, false]
    &&& row.op_a == 0
    &&& row.op_b == 0
    &&& row.op_c == 0
}

/// Fills the shared columns of a step's row.
pub fn common_row(step: &ProgramStep) -> (r: ExecutionRow)
    ensures
        common_row_of(r, *step),
{
    let pc: [u16; 2] = u32_to_16bit_parts_le(step.pc);
    let (pc_next, pc_carry) = add_16bit_with_carry(pc, WORD_SIZE);
    let clk: [u16; 2] = u32_to_16bit_parts_le(step.timestamp);
    let (clk_next, clk_carry) = add_16bit_with_carry(clk, 1u16);
    ExecutionRow {
        is_local_pad: false,
        pc,
        pc_next,
        pc_carry,
        clk,
        clk_next,
        clk_carry,
        op_a: step.instruction.op_a,
        op_b: step.instruction.op_b,
        op_c: step.instruction.op_c,
    }
}

pub fn pad_row() -> (r: ExecutionRow)
    ensures
        is_pad_row(r),
{
    ExecutionRow {
        is_local_pad: true,
        pc: [0u16, 0u16],
        pc_next: [0u16, 0u16],
        pc_carry: [false, false],
        clk: [0u16, 0u16],
        clk_next: [0u16, 0u16],
        clk_carry: [false, false],
        op_a: 0,
        op_b: 0,
        op_c: 0,
    }
}

/// `(1 − is_pad) · e`.
pub open spec fn gated(pad: bool, e: int) -> int {
    (1 - bit(pad)) * e
}

/// The constraints on the clock and pc increments:
/// `clk_next = clk + 1` and `pc_next = pc + 4` limb by limb with boolean carries.
pub open spec fn common_constraint_exprs(row: ExecutionRow) -> Seq<int> {
    seq![
        gated(row.is_local_pad, row.clk_next[0] + bit(row.clk_carry[0]) * 0x1_0000 - row.clk[0] - 1),
        gated(row.is_local_pad, row.clk_next[1] + bit(row.clk_carry[1]) * 0x1_0000 - row.clk[1] - bit(row.clk_carry[0])),
        bit(row.clk_carry[0]) * (1 - bit(row.clk_carry[0])),
        bit(row.clk_carry[1]) * (1 - bit(row.clk_carry[1])),
        gated(row.is_local_pad, row.pc_next[0] + bit(row.pc_carry[0]) * 0x1_0000 - row.pc[0] - 4),
        gated(row.is_local_pad, row.pc_next[1] + bit(row.pc_carry[1]) * 0x1_0000 - row.pc[1] - bit(row.pc_carry[0])),
        bit(row.pc_carry[0]) * (1 - bit(row.pc_carry[0])),
        bit(row.pc_carry[1]) * (1 - bit(row.pc_carry[1])),
    ]
}

/// Constraint values in the field.
pub open spec fn evals(exprs: Seq<int>) -> Seq<BaseField> {
    exprs.map_values(|e: int| BaseField { v: fe(e) as u32 })
}

pub proof fn lemma_evals_append(a: Seq<int>, b: Seq<int>)
    ensures
        evals(a + b) == evals(a) + evals(b),
{
    assert(evals(a + b) =~= evals(a) + evals(b));
}

/// Every value of a list of constraint values is zero.
pub open spec fn all_zero(vals: Seq<BaseField>) -> bool {
    forall|k: int| 0 <= k < vals.len() ==> (#[trigger] vals[k]).v == 0
}

pub open spec fn all_zero_exprs(exprs: Seq<int>) -> bool {
    forall|k: int| 0 <= k < exprs.len() ==> #[trigger] exprs[k] == 0
}

pub proof fn lemma_all_zero_evals(exprs: Seq<int>)
    requires
        all_zero_exprs(exprs),
    ensures
        all_zero(evals(exprs)),
{
    assert forall|k: int| 0 <= k < evals(exprs).len() implies (#[trigger] evals(exprs)[k]).v
        == 0 by {
        assert(exprs[k] == 0);
        assert(fe(0) == 0);
    }
}

/// `(1 − is_pad) · e` at a concrete row.
pub fn gate(pad: bool, e: i64) -> (r: i64)
    ensures
        r == gated(pad, e as int),
{
    let ghost b: int = bit(pad);
    assert(b == 1 ==> (1 - b) * e == 0) by (nonlinear_arith);
    assert(b == 0 ==> (1 - b) * e == e) by (nonlinear_arith);
    if pad {
        0
    } else {
        e
    }
}

/// `b · (1 − b)` at a concrete row: zero, as a column of type `bool` holds a bit.
pub fn boolean_check(b: bool) -> (r: i64)
    ensures
        r == bit(b) * (1 - bit(b)),
{
    0
}

pub fn bit_of(b: bool) -> (r: i64)
    ensures
        r == bit(b),
{
    if b {
        1
    } else {
        0
    }
}

/// Appends the field value of one constraint.
pub fn push_eval(out: &mut Vec<BaseField>, x: i64)
    ensures
        final(out)@ == old(out)@.push(BaseField { v: fe(x as int) as u32 }),
{
    let v: BaseField = BaseField::from_i64(x);
    out.push(v);
}

/// Evaluates the increment constraints at a row.
pub fn constrain_common(row: &ExecutionRow, out: &mut Vec<BaseField>)
    ensures
        final(out)@ == old(out)@ + evals(common_constraint_exprs(*row)),
{
    let pad: bool = row.is_local_pad;
    let cc0: i64 = bit_of(row.clk_carry[0]);
    let cc1: i64 = bit_of(row.clk_carry[1]);
    let pc0: i64 = bit_of(row.pc_carry[0]);
    let pc1: i64 = bit_of(row.pc_carry[1]);
    push_eval(out, gate(pad, row.clk_next[0] as i64 + cc0 * 0x1_0000 - row.clk[0] as i64 - 1));
    push_eval(out, gate(pad, row.clk_next[1] as i64 + cc1 * 0x1_0000 - row.clk[1] as i64 - cc0));
    push_eval(out, boolean_check(row.clk_carry[0]));
    push_eval(out, boolean_check(row.clk_carry[1]));
    push_eval(out, gate(pad, row.pc_next[0] as i64 + pc0 * 0x1_0000 - row.pc[0] as i64 - 4));
    push_eval(out, gate(pad, row.pc_next[1] as i64 + pc1 * 0x1_0000 - row.pc[1] as i64 - pc0));
    push_eval(out, boolean_check(row.pc_carry[0]));
    push_eval(out, boolean_check(row.pc_carry[1]));
    assert(out@ =~= old(out)@ + evals(common_constraint_exprs(*row)));
}

/// The key of a register access: clock limbs, register index, value bytes, write flag.
pub open spec fn reg_key(clk: [u16; 2], idx: u32, v: Word, write: bool) -> Seq<u32> {
    seq![clk[0] as u32, clk[1] as u32, idx, v[0] as u32, v[1] as u32, v[2] as u32, v[3] as u32, bit(write) as u32]
}

/// The bytes of a 32-bit value, low first.
pub open spec fn word_bytes(x: u32) -> Seq<u32> {
    seq![x % 0x100, (x / 0x100) % 0x100, (x / 0x1_0000) % 0x100, x / 0x100_0000]
}

/// The instruction that a row's decoding columns describe for the given opcode.
pub open spec fn row_instruction(row: ExecutionRow, opcode: BuiltinOpcode) -> Instruction {
    Instruction { opcode, op_a: row.op_a, op_b: row.op_b, op_c: row.op_c }
}

/// What a component supplies to the shared lookups: its opcode, whether the second
/// operand is a register, and whether the first operand register is written.
#[derive(Clone, Copy, Debug, PartialEq, Eq, Structural)]
pub struct ExecutionPolicy {
    pub opcode: BuiltinOpcode,
    pub reg2_accessed: bool,
    pub reg3_write: bool,
}

/// The entries of the shared lookups for one row, each with numerator `±(1 − is_pad)`:
/// - provide `(clk, pc)` to the execution-order relation;
/// - consume `(pc, instruction word)` from the program;
/// - provide the access of the register `op_b` (read, value `b`), of `op_c` when the
///   second operand is a register (read, value `c`), and of `op_a` (value `a`, written
///   when the policy says so) to the register file.
pub open spec fn execution_entries(
    row: ExecutionRow,
    policy: ExecutionPolicy,
    a: Word,
    b: Word,
    c: Word,
) -> Seq<EntryView> {
    let g = 1 - bit(row.is_local_pad);
    let base = seq![
        (Relation::ProgramExecution, g, seq![row.clk[0] as u32, row.clk[1] as u32, row.pc[0] as u32, row.pc[1] as u32]),
        (Relation::InstToProgMemory, -g, seq![row.pc[0] as u32, row.pc[1] as u32] + word_bytes(row_instruction(row, policy.opcode).spec_encode())),
        (Relation::InstToRegisterMemory, g, reg_key(row.clk, row.op_b as u32, b, false)),
    ];
    let with_c = if policy.reg2_accessed {
        base.push((Relation::InstToRegisterMemory, g, reg_key(row.clk, row.op_c, c, false)))
    } else {
        base
    };
    with_c.push((Relation::InstToRegisterMemory, g, reg_key(row.clk, row.op_a as u32, a, policy.reg3_write)))
}

fn reg_entry(clk: [u16; 2], idx: u32, v: Word, write: bool, g: i64) -> (r: LookupEntry)
    ensures
        r@ == (Relation::InstToRegisterMemory, g as int, reg_key(clk, idx, v, write)),
{
    let key: Vec<u32> = vec![
        clk[0] as u32,
        clk[1] as u32,
        idx,
        v[0] as u32,
        v[1] as u32,
        v[2] as u32,
        v[3] as u32,
        bit_of(write) as u32,
    ];
    assert(key@ =~= reg_key(clk, idx, v, write));
    LookupEntry { relation: Relation::InstToRegisterMemory, multiplicity: g, key }
}

/// Emits the shared lookups of one row.
pub fn execution_lookups(
    row: &ExecutionRow,
    policy: ExecutionPolicy,
    a: Word,
    b: Word,
    c: Word,
) -> (r: Vec<LookupEntry>)
    requires
        row_instruction(*row, policy.opcode).wf(),
    ensures
        entry_views(r@) == execution_entries(*row, policy, a, b, c),
{
    let g: i64 = 1 - bit_of(row.is_local_pad);
    let instr = Instruction {
        opcode: policy.opcode,
        op_a: row.op_a,
        op_b: row.op_b,
        op_c: row.op_c,
    };
    let w: Word = u32_to_word(instr.encode());
    let mut r: Vec<LookupEntry> = Vec::new();
    let k1: Vec<u32> = vec![row.clk[0] as u32, row.clk[1] as u32, row.pc[0] as u32, row.pc[1] as u32];
    let k2: Vec<u32> = vec![
        row.pc[0] as u32,
        row.pc[1] as u32,
        w[0] as u32,
        w[1] as u32,
        w[2] as u32,
        w[3] as u32,
    ];
    let ghost k1v = k1@;
    let ghost k2v = k2@;
    r.push(LookupEntry { relation: Relation::ProgramExecution, multiplicity: g, key: k1 });
    r.push(LookupEntry { relation: Relation::InstToProgMemory, multiplicity: -g, key: k2 });
    r.push(reg_entry(row.clk, row.op_b as u32, b, false, g));
    if policy.reg2_accessed {
        r.push(reg_entry(row.clk, row.op_c, c, false, g));
    }
    r.push(reg_entry(row.clk, row.op_a as u32, a, policy.reg3_write, g));
    assert(k2v =~= seq![row.pc[0] as u32, row.pc[1] as u32] + word_bytes(
        row_instruction(*row, policy.opcode).spec_encode(),
    ));
    assert(entry_views(r@) =~= execution_entries(*row, policy, a, b, c));
    r
}

/// The least log-height that holds `n` rows, and no less than one group of lanes.
pub open spec fn fits(log: u32, n: nat) -> bool {
    &&& LOG_N_LANES <= log <= 32
    &&& n <= height(log as nat)
    &&& (log == LOG_N_LANES || height((log - 1) as nat) < n)
}

pub open spec fn steps_wf(steps: Seq<ProgramStep>) -> bool {
    forall|i: int| 0 <= i < steps.len() ==> (#[trigger] steps[i]).instruction.wf()
}

pub proof fn lemma_selected_wf(steps: Seq<ProgramStep>, op: BuiltinOpcode)
    requires
        steps_wf(steps),
    ensures
        steps_wf(selected(steps, op)),
    decreases steps.len(),
{
    if steps.len() > 0 {
        assert(steps_wf(steps.drop_last())) by {
            assert forall|i: int| 0 <= i < steps.drop_last().len() implies (
            #[trigger] steps.drop_last()[i]).instruction.wf() by {
                assert(steps.drop_last()[i] == steps[i]);
            }
        }
        lemma_selected_wf(steps.drop_last(), op);
    }
}

pub proof fn lemma_gated_pad(pad: bool)
    requires
        pad,
    ensures
        forall|e: int| #[trigger] gated(pad, e) == 0,
{
    assert forall|e: int| #[trigger] gated(pad, e) == 0 by {
        assert((1 - 1) * e == 0) by (nonlinear_arith);
    }
}

pub proof fn lemma_gated_real(pad: bool)
    requires
        !pad,
    ensures
        forall|e: int| #[trigger] gated(pad, e) == e,
{
    assert forall|e: int| #[trigger] gated(pad, e) == e by {
        assert((1 - 0) * e == e) by (nonlinear_arith);
    }
}

pub proof fn lemma_bool_check(b: bool)
    ensures
        bit(b) * (1 - bit(b)) == 0,
{
}

} // verus!
