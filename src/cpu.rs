//! The CPU component: one row per executed step, in clock order, consuming each step's
//! `(clk, pc)` from the execution-order relation.
use crate::execution::{
    all_zero, evals, fits, lemma_all_zero_evals, push_eval, bit_of, trace_log_size,
    FinalizedTrace, ProgramStep,
};
use crate::field::{lemma_fe_zero_small, BaseField};
use crate::logup::{entry_views, EntryView, LogupTraceBuilder, LookupEntry, Relation};
use crate::word::{bit, limbs_value, u32_to_16bit_parts_le};
use vstd::prelude::*;

verus! {

/// One row: the pad flag, the pc as two 16-bit limbs, and the low limb divided by four.
#[derive(Clone, Copy, Debug)]
pub struct CpuRow {
    pub is_pad: bool,
    pub pc: [u16; 2],
    pub pc_aux: u16,
}

pub struct Cpu;

/// The clock of row `i` of the preprocessed column: `i + 1`, as two 16-bit limbs.
pub open spec fn clk_limbs(i: int) -> Seq<u32> {
    seq![((i + 1) % 0x1_0000) as u32, ((i + 1) / 0x1_0000) as u32]
}

/// Steps `0, 1, ...` of a run are at clocks `1, 2, ...`, each at a pc that is a multiple of
/// four.
pub open spec fn is_run(steps: Seq<ProgramStep>) -> bool {
    forall|i: int|
        0 <= i < steps.len() ==> (#[trigger] steps[i]).timestamp == i + 1 && steps[i].pc % 4
            == 0
}

pub open spec fn cpu_row_of(row: CpuRow, step: ProgramStep) -> bool {
    &&& !row.is_pad
    &&& limbs_value(row.pc) == step.pc
    &&& row.pc_aux * 4 == row.pc[0]
}

pub open spec fn cpu_pad_row(row: CpuRow) -> bool {
    row.is_pad && row.pc == [0u16, 0u16] && row.pc_aux == 0
}

/// `pc_aux · 4 − pc(1)`: the pc is a multiple of four.
pub open spec fn cpu_constraint_exprs(row: CpuRow) -> Seq<int> {
    seq![row.pc_aux * 4 - row.pc[0]]
}

/// Row `i` consumes `(clk, pc)` with numerator `−(1 − is_pad)`.
pub open spec fn cpu_row_entry(row: CpuRow, i: int) -> EntryView {
    (Relation::ProgramExecution, bit(row.is_pad) - 1, clk_limbs(i) + seq![row.pc[0] as u32, row.pc[1] as u32])
}

pub open spec fn cpu_entries(rows: Seq<CpuRow>) -> Seq<EntryView>
    decreases rows.len(),
{
    if rows.len() == 0 {
        Seq::empty()
    } else {
        cpu_entries(rows.drop_last()).push(cpu_row_entry(rows.last(), rows.len() - 1))
    }
}

impl Cpu {
    /// The clock column: `1, 2, ..., 2^log_size`, each as two 16-bit limbs.
    pub fn generate_preprocessed_trace(&self, log_size: u32) -> (r: FinalizedTrace<[u16; 2]>)
        requires
            log_size < 32,
        ensures
            r.wf(),
            r.log_size == log_size,
            forall|i: int|
                0 <= i < r.rows@.len() ==> limbs_value(#[trigger] r.rows@[i]) == i + 1,
    {
        let h: u64 = 1u64 << log_size;
        proof {
            lemma_shl_height(log_size);
        }
        let mut rows: Vec<[u16; 2]> = Vec::new();
        let mut i: u64 = 0;
        while i < h
            invariant
                h == crate::execution::height(log_size as nat),
                h <= 0x8000_0000,
                0 <= i <= h,
                rows@.len() == i,
                forall|j: int| 0 <= j < i ==> limbs_value(#[trigger] rows@[j]) == j + 1,
            decreases h - i,
        {
            rows.push(u32_to_16bit_parts_le((i + 1) as u32));
            i = i + 1;
        }
        FinalizedTrace { log_size, rows }
    }

    /// One row per step of the run, in order, then padding rows.
    pub fn generate_main_trace(&self, steps: &Vec<ProgramStep>) -> (r: FinalizedTrace<CpuRow>)
        requires
            steps@.len() <= 0x8000_0000,
            is_run(steps@),
        ensures
            r.wf(),
            fits(r.log_size, steps@.len()),
            forall|i: int| 0 <= i < steps@.len() ==> cpu_row_of(#[trigger] r.rows@[i], steps@[i]),
            forall|i: int| steps@.len() <= i < r.rows@.len() ==> cpu_pad_row(#[trigger] r.rows@[i]),
    {
        let n: usize = steps.len();
        let (log_size, h) = trace_log_size(n);
        let mut rows: Vec<CpuRow> = Vec::new();
        let mut i: usize = 0;
        while i < n
            invariant
                n == steps@.len(),
                is_run(steps@),
                0 <= i <= n,
                rows@.len() == i,
                forall|j: int| 0 <= j < i ==> cpu_row_of(#[trigger] rows@[j], steps@[j]),
            decreases n - i,
        {
            let pc: [u16; 2] = u32_to_16bit_parts_le(steps[i].pc);
            proof {
                assert(steps@[i as int].pc % 4 == 0);
                vstd::arithmetic::div_mod::lemma_fundamental_div_mod_converse(
                    steps@[i as int].pc as int, 0x1_0000, pc[1] as int, pc[0] as int);
                vstd::arithmetic::div_mod::lemma_mod_mod(steps@[i as int].pc as int, 4, 0x4000);
            }
            rows.push(CpuRow { is_pad: false, pc, pc_aux: pc[0] / 4 });
            i = i + 1;
        }
        while (rows.len() as u64) < h
            invariant
                n == steps@.len(),
                h == crate::execution::height(log_size as nat),
                n <= rows@.len() <= h,
                forall|j: int| 0 <= j < n ==> cpu_row_of(#[trigger] rows@[j], steps@[j]),
                forall|j: int| n <= j < rows@.len() ==> cpu_pad_row(#[trigger] rows@[j]),
            decreases h - rows@.len(),
        {
            rows.push(CpuRow { is_pad: true, pc: [0u16, 0u16], pc_aux: 0 });
        }
        FinalizedTrace { log_size, rows }
    }

    /// One consume entry per row, at that row's clock.
    pub fn generate_interaction_trace(&self, trace: &FinalizedTrace<CpuRow>) -> (r: Vec<
        LookupEntry,
    >)
        requires
            trace.rows@.len() <= 0x8000_0000,
        ensures
            entry_views(r@) == cpu_entries(trace.rows@),
    {
        let mut builder = LogupTraceBuilder::new();
        let mut i: usize = 0;
        while i < trace.rows.len()
            invariant
                trace.rows@.len() <= 0x8000_0000,
                0 <= i <= trace.rows@.len(),
                entry_views(builder.entries@) == cpu_entries(trace.rows@.take(i as int)),
            decreases trace.rows@.len() - i,
        {
            let row = trace.rows[i];
            let clk: [u16; 2] = u32_to_16bit_parts_le((i + 1) as u32);
            let key: Vec<u32> = vec![clk[0] as u32, clk[1] as u32, row.pc[0] as u32, row.pc[1] as u32];
            proof {
                vstd::arithmetic::div_mod::lemma_fundamental_div_mod_converse(
                    i + 1, 0x1_0000, clk[1] as int, clk[0] as int);
                assert(key@ =~= clk_limbs(i as int) + seq![row.pc[0] as u32, row.pc[1] as u32]);
                assert(trace.rows@.take(i + 1).drop_last() =~= trace.rows@.take(i as int));
            }
            builder.add_to_relation_with(
                Relation::ProgramExecution,
                bit_of(row.is_pad) - 1,
                key,
            );
            i = i + 1;
        }
        assert(trace.rows@.take(trace.rows@.len() as int) =~= trace.rows@);
        builder.finalize()
    }

    /// Evaluates the component's constraint at one row.
    pub fn add_constraints(&self, row: &CpuRow) -> (r: Vec<BaseField>)
        ensures
            r@ == evals(cpu_constraint_exprs(*row)),
    {
        let mut out: Vec<BaseField> = Vec::new();
        push_eval(&mut out, row.pc_aux as i64 * 4 - row.pc[0] as i64);
        assert(out@ =~= evals(cpu_constraint_exprs(*row)));
        out
    }
}

proof fn lemma_shl_height(log: u32)
    requires
        log < 32,
    ensures
        1u64 << log == crate::execution::height(log as nat),
        crate::execution::height(log as nat) <= 0x8000_0000,
{
    vstd::arithmetic::power2::lemma2_to64();
    vstd::bits::lemma_u64_shl_is_mul(1, log as u64);
    vstd::arithmetic::power2::lemma_pow2(log as nat);
    if log < 31 {
        vstd::arithmetic::power2::lemma_pow2_strictly_increases(log as nat, 31);
    }
}

/// Every row of a step, and every padding row, satisfies the constraint; a row that does
/// holds a pc limb that is a multiple of four.
pub proof fn lemma_cpu_constraint(row: CpuRow, step: ProgramStep)
    ensures
        cpu_row_of(row, step) || cpu_pad_row(row) ==> all_zero(evals(cpu_constraint_exprs(row))),
        all_zero(evals(cpu_constraint_exprs(row))) ==> row.pc[0] == row.pc_aux * 4,
{
    let e = cpu_constraint_exprs(row);
    if cpu_row_of(row, step) || cpu_pad_row(row) {
        lemma_all_zero_evals(e);
    }
    if all_zero(evals(e)) {
        assert(evals(e)[0].v == 0);
        lemma_fe_zero_small(e[0]);
    }
}

} // verus!
