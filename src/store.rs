//! The component that proves `SB`, `SH` and `SW`: the address `a + c` over two 16-bit
//! halves, its alignment, and the bytes handed to memory.
use crate::execution::{
    all_zero, all_zero_exprs, bit_of, boolean_check, common_constraint_exprs, common_row,
    common_row_of, constrain_common, evals, execution_entries, execution_lookups, fits, gate,
    gated, is_pad_row, lemma_all_zero_evals, lemma_bool_check, lemma_evals_append,
    lemma_gated_pad, lemma_gated_real, lemma_selected_len, lemma_selected_wf, pad_row, push_eval,
    row_instruction, select_steps, selected, steps_wf, trace_log_size, ExecutionPolicy,
    ExecutionRow, FinalizedTrace, ProgramStep,
};
use crate::field::{lemma_fe_zero_small, BaseField};
use crate::instruction::BuiltinOpcode;
use crate::logup::{entry_views, EntryView, LogupTraceBuilder, LookupEntry, Relation};
use crate::word::{add_with_carries, bit, u32_to_word, word_value, Word};
use vstd::prelude::*;

verus! {

/// What a store instruction touches: which of the four bytes at the address it writes, and
/// the alignment the address must have (zero for none).
#[derive(Clone, Copy, Debug, PartialEq, Eq, Structural)]
pub struct StoreParams {
    pub policy: ExecutionPolicy,
    pub ram2_accessed: bool,
    pub ram3_4accessed: bool,
    pub alignment: u8,
}

/// `SB` writes one byte, `SH` two at an even address, `SW` four at a multiple of four; the
/// stored register and the base register are both read.
pub open spec fn store_params_wf(p: StoreParams) -> bool {
    &&& !p.policy.reg2_accessed
    &&& !p.policy.reg3_write
    &&& match p.policy.opcode {
        BuiltinOpcode::SB => !p.ram2_accessed && !p.ram3_4accessed && p.alignment == 0,
        BuiltinOpcode::SH => p.ram2_accessed && !p.ram3_4accessed && p.alignment == 2,
        BuiltinOpcode::SW => p.ram2_accessed && p.ram3_4accessed && p.alignment == 4,
        _ => false,
    }
}

/// The store instruction a store component proves.
pub trait StoreOp {
    fn params(&self) -> (r: StoreParams)
        ensures
            store_params_wf(r),
    ;
}

pub struct Sb;

pub struct Sh;

pub struct Sw;

impl StoreOp for Sb {
    fn params(&self) -> (r: StoreParams) {
        StoreParams {
            policy: ExecutionPolicy {
                opcode: BuiltinOpcode::SB,
                reg2_accessed: false,
                reg3_write: false,
            },
            ram2_accessed: false,
            ram3_4accessed: false,
            alignment: 0,
        }
    }
}

impl StoreOp for Sh {
    fn params(&self) -> (r: StoreParams) {
        StoreParams {
            policy: ExecutionPolicy {
                opcode: BuiltinOpcode::SH,
                reg2_accessed: false,
                reg3_write: false,
            },
            ram2_accessed: true,
            ram3_4accessed: false,
            alignment: 2,
        }
    }
}

impl StoreOp for Sw {
    fn params(&self) -> (r: StoreParams) {
        StoreParams {
            policy: ExecutionPolicy {
                opcode: BuiltinOpcode::SW,
                reg2_accessed: false,
                reg3_write: false,
            },
            ram2_accessed: true,
            ram3_4accessed: true,
            alignment: 4,
        }
    }
}

/// One row: the shared columns, base `a`, stored value `b`, offset `c`, the address with
/// the carries out of its halves, and the address's low byte divided by the alignment.
#[derive(Clone, Copy, Debug)]
pub struct StoreRow {
    pub common: ExecutionRow,
    pub a_val: Word,
    pub b_val: Word,
    pub c_val: Word,
    pub h_ram_base_addr: Word,
    pub h_carry: [bool; 2],
    pub h_ram_base_addr_aux: u8,
}

pub struct Store<T> {
    pub op: T,
    pub params: StoreParams,
}

/// The address of a step: `(a + c) mod 2^32`.
pub open spec fn store_address(step: ProgramStep) -> int {
    (step.value_a + step.value_c) % 0x1_0000_0000
}

/// The step's address has the alignment the instruction requires.
pub open spec fn aligned(step: ProgramStep, alignment: u8) -> bool {
    alignment == 0 || store_address(step) % (alignment as int) == 0
}

pub open spec fn address_halves(h: Word, a: Word, c: Word, h_carry: [bool; 2]) -> bool {
    &&& h[0] + h[1] * 0x100 + bit(h_carry[0]) * 0x1_0000 == a[0] + a[1] * 0x100 + c[0] + c[1]
        * 0x100
    &&& h[2] + h[3] * 0x100 + bit(h_carry[1]) * 0x1_0000 == a[2] + a[3] * 0x100 + c[2] + c[3]
        * 0x100 + bit(h_carry[0])
}

pub open spec fn store_row_of(row: StoreRow, step: ProgramStep, alignment: u8) -> bool {
    &&& common_row_of(row.common, step)
    &&& word_value(row.a_val) == step.value_a
    &&& word_value(row.b_val) == step.value_b
    &&& word_value(row.c_val) == step.value_c
    &&& address_halves(row.h_ram_base_addr, row.a_val, row.c_val, row.h_carry)
    &&& if alignment > 0 {
        row.h_ram_base_addr_aux * alignment == row.h_ram_base_addr[0]
    } else {
        row.h_ram_base_addr_aux == 0
    }
}

pub open spec fn store_pad_row(row: StoreRow) -> bool {
    &&& is_pad_row(row.common)
    &&& word_value(row.a_val) == 0
    &&& word_value(row.b_val) == 0
    &&& word_value(row.c_val) == 0
    &&& word_value(row.h_ram_base_addr) == 0
    &&& row.h_carry == [false, false]
    &&& row.h_ram_base_addr_aux == 0
}

/// The shared constraints, the two address halves, the carry bits, and, for an aligned
/// store, `(1 − is_pad) · (ALIGNMENT · aux − h(1))`.
pub open spec fn store_constraint_exprs(row: StoreRow, alignment: u8) -> Seq<int> {
    let (a, c, h, hc) = (row.a_val, row.c_val, row.h_ram_base_addr, row.h_carry);
    let pad = row.common.is_local_pad;
    let base = common_constraint_exprs(row.common) + seq![
        gated(pad, h[0] + h[1] * 0x100 - a[0] - a[1] * 0x100 - c[0] - c[1] * 0x100 + bit(hc[0]) * 0x1_0000),
        gated(pad, h[2] + h[3] * 0x100 - bit(hc[0]) - a[2] - a[3] * 0x100 - c[2] - c[3] * 0x100 + bit(hc[1]) * 0x1_0000),
        bit(hc[0]) * (1 - bit(hc[0])),
        bit(hc[1]) * (1 - bit(hc[1])),
    ];
    if alignment > 0 {
        base.push(gated(pad, row.h_ram_base_addr_aux * alignment - h[0]))
    } else {
        base
    }
}

/// The bytes written: the low `max(1, alignment)` bytes of `b`, the rest zero.
pub open spec fn ram_values(b: Word, alignment: u8) -> Seq<u32> {
    if alignment == 4 {
        seq![b[0] as u32, b[1] as u32, b[2] as u32, b[3] as u32]
    } else if alignment == 2 {
        seq![b[0] as u32, b[1] as u32, 0, 0]
    } else {
        seq![b[0] as u32, 0, 0, 0]
    }
}

/// Provide `(clk, address, values, accessed flags, write flag)` to memory, then the shared
/// lookups.
pub open spec fn store_row_entries(row: StoreRow, params: StoreParams) -> Seq<EntryView> {
    let h = row.h_ram_base_addr;
    let key = seq![row.common.clk[0] as u32, row.common.clk[1] as u32, h[0] as u32, h[1] as u32, h[2] as u32, h[3] as u32]
        + ram_values(row.b_val, params.alignment) + seq![1u32, bit(params.ram2_accessed) as u32, bit(params.ram3_4accessed) as u32, 1u32];
    seq![(Relation::InstToRam, 1 - bit(row.common.is_local_pad), key)] + execution_entries(
        row.common,
        params.policy,
        row.a_val,
        row.b_val,
        row.c_val,
    )
}

pub open spec fn store_entries(rows: Seq<StoreRow>, params: StoreParams) -> Seq<EntryView>
    decreases rows.len(),
{
    if rows.len() == 0 {
        Seq::empty()
    } else {
        store_entries(rows.drop_last(), params) + store_row_entries(rows.last(), params)
    }
}

pub open spec fn store_rows_decodable(rows: Seq<StoreRow>, opcode: BuiltinOpcode) -> bool {
    forall|i: int| 0 <= i < rows.len() ==> #[trigger] row_instruction(rows[i].common, opcode).wf()
}

/// The low byte of a word is its value modulo 256.
proof fn lemma_low_byte_alignment(h: Word, x: int, alignment: u8)
    requires
        word_value(h) == x,
        alignment == 2 || alignment == 4,
    ensures
        (h[0] as int) % (alignment as int) == x % (alignment as int),
{
    let rest = h[1] as int + h[2] as int * 0x100 + h[3] as int * 0x1_0000;
    assert(x == h[0] as int + rest * 0x100);
    let k: int = if alignment == 2 { 0x80 } else { 0x40 };
    assert(rest * 0x100 == (rest * k) * alignment) by (nonlinear_arith)
        requires
            k * alignment == 0x100,
    ;
    vstd::arithmetic::div_mod::lemma_mod_multiples_vanish(rest * k, h[0] as int, alignment as int);
}

impl<T: StoreOp> Store<T> {
    pub open spec fn wf(&self) -> bool {
        store_params_wf(self.params)
    }

    pub fn new(op: T) -> (r: Self)
        ensures
            r.wf(),
    {
        let params = op.params();
        Store { op, params }
    }

    /// Fills the row of one step whose address has the required alignment.
    pub fn generate_trace_row(&self, step: &ProgramStep) -> (r: StoreRow)
        requires
            self.wf(),
            aligned(*step, self.params.alignment),
        ensures
            store_row_of(r, *step, self.params.alignment),
    {
        let common = common_row(step);
        let value_a: Word = u32_to_word(step.value_a);
        let value_b: Word = u32_to_word(step.value_b);
        let value_c: Word = u32_to_word(step.value_c);
        let (h_ram_base_addr, carries) = add_with_carries(value_a, value_c);
        let alignment: u8 = self.params.alignment;
        let aux: u8 = if alignment > 0 {
            proof {
                vstd::arithmetic::div_mod::lemma_fundamental_div_mod_converse(
                    (step.value_a + step.value_c) as int,
                    0x1_0000_0000,
                    bit(carries[3]),
                    word_value(h_ram_base_addr),
                );
                lemma_low_byte_alignment(
                    h_ram_base_addr,
                    store_address(*step),
                    alignment,
                );
                vstd::arithmetic::div_mod::lemma_fundamental_div_mod(
                    h_ram_base_addr[0] as int,
                    alignment as int,
                );
            }
            h_ram_base_addr[0] / alignment
        } else {
            0
        };
        StoreRow {
            common,
            a_val: value_a,
            b_val: value_b,
            c_val: value_c,
            h_ram_base_addr,
            h_carry: [carries[1], carries[3]],
            h_ram_base_addr_aux: aux,
        }
    }

    /// An empty preprocessed trace: this component reads nothing fixed in advance.
    pub fn generate_preprocessed_trace(&self) -> (r: FinalizedTrace<u32>)
        ensures
            r.rows@.len() == 0,
    {
        FinalizedTrace { log_size: 0, rows: Vec::new() }
    }

    /// One row per step of this component's opcode, in order, then padding rows up to the
    /// least power of two (and at least one group of lanes).
    pub fn generate_main_trace(&self, steps: &Vec<ProgramStep>) -> (r: FinalizedTrace<StoreRow>)
        requires
            self.wf(),
            steps@.len() <= 0x1_0000_0000,
            steps_wf(steps@),
            forall|i: int|
                0 <= i < steps@.len() && steps@[i].instruction.opcode == self.params.policy.opcode
                    ==> aligned(#[trigger] steps@[i], self.params.alignment),
        ensures
            r.wf(),
            fits(r.log_size, selected(steps@, self.params.policy.opcode).len()),
            forall|i: int|
                0 <= i < selected(steps@, self.params.policy.opcode).len() ==> store_row_of(
                    #[trigger] r.rows@[i],
                    selected(steps@, self.params.policy.opcode)[i],
                    self.params.alignment,
                ),
            forall|i: int|
                selected(steps@, self.params.policy.opcode).len() <= i < r.rows@.len()
                    ==> store_pad_row(#[trigger] r.rows@[i]),
            store_rows_decodable(r.rows@, self.params.policy.opcode),
    {
        let op = self.params.policy.opcode;
        let sel: Vec<ProgramStep> = select_steps(steps, op);
        proof {
            lemma_selected_len(steps@, op);
            lemma_selected_wf(steps@, op);
            lemma_selected_aligned(steps@, op, self.params.alignment);
        }
        let n: usize = sel.len();
        let (log_size, h) = trace_log_size(n);
        let mut rows: Vec<StoreRow> = Vec::new();
        let mut i: usize = 0;
        while i < n
            invariant
                self.wf(),
                op == self.params.policy.opcode,
                n == sel@.len(),
                sel@ == selected(steps@, op),
                steps_wf(sel@),
                forall|j: int| 0 <= j < sel@.len() ==> aligned(#[trigger] sel@[j], self.params.alignment),
                0 <= i <= n,
                rows@.len() == i,
                forall|j: int|
                    0 <= j < i ==> store_row_of(#[trigger] rows@[j], sel@[j], self.params.alignment),
            decreases n - i,
        {
            let row = self.generate_trace_row(&sel[i]);
            rows.push(row);
            i = i + 1;
        }
        while (rows.len() as u64) < h
            invariant
                n == sel@.len(),
                h == crate::execution::height(log_size as nat),
                n <= rows@.len() <= h,
                forall|j: int|
                    0 <= j < n ==> store_row_of(#[trigger] rows@[j], sel@[j], self.params.alignment),
                forall|j: int| n <= j < rows@.len() ==> store_pad_row(#[trigger] rows@[j]),
            decreases h - rows@.len(),
        {
            rows.push(
                StoreRow {
                    common: pad_row(),
                    a_val: [0u8; 4],
                    b_val: [0u8; 4],
                    c_val: [0u8; 4],
                    h_ram_base_addr: [0u8; 4],
                    h_carry: [false, false],
                    h_ram_base_addr_aux: 0,
                },
            );
        }
        proof {
            assert forall|i: int| 0 <= i < rows@.len() implies #[trigger] row_instruction(
                rows@[i].common,
                op,
            ).wf() by {
                if i < n {
                    assert(sel@[i].instruction.wf());
                    lemma_selected_len(steps@, op);
                }
            }
        }
        FinalizedTrace { log_size, rows }
    }

    /// The lookup entries of one row; the constraint side states the same entries.
    pub fn row_lookups(&self, row: &StoreRow) -> (r: Vec<LookupEntry>)
        requires
            row_instruction(row.common, self.params.policy.opcode).wf(),
        ensures
            entry_views(r@) == store_row_entries(*row, self.params),
    {
        let g: i64 = 1 - bit_of(row.common.is_local_pad);
        let h = row.h_ram_base_addr;
        let b = row.b_val;
        let alignment: u8 = self.params.alignment;
        let mut key: Vec<u32> = vec![
            row.common.clk[0] as u32,
            row.common.clk[1] as u32,
            h[0] as u32,
            h[1] as u32,
            h[2] as u32,
            h[3] as u32,
        ];
        key.push(b[0] as u32);
        key.push(if alignment == 2 || alignment == 4 { b[1] as u32 } else { 0 });
        key.push(if alignment == 4 { b[2] as u32 } else { 0 });
        key.push(if alignment == 4 { b[3] as u32 } else { 0 });
        key.push(1);
        key.push(bit_of(self.params.ram2_accessed) as u32);
        key.push(bit_of(self.params.ram3_4accessed) as u32);
        key.push(1);
        let ghost kv = key@;
        let mut r: Vec<LookupEntry> = vec![
            LookupEntry { relation: Relation::InstToRam, multiplicity: g, key },
        ];
        let ghost first = entry_views(r@);
        let more = execution_lookups(&row.common, self.params.policy, row.a_val, b, row.c_val);
        let ghost more_v = entry_views(more@);
        let mut more = more;
        r.append(&mut more);
        proof {
            let hh = row.h_ram_base_addr;
            assert(kv =~= seq![row.common.clk[0] as u32, row.common.clk[1] as u32, hh[0] as u32, hh[1] as u32, hh[2] as u32, hh[3] as u32]
                + ram_values(row.b_val, alignment) + seq![1u32, bit(self.params.ram2_accessed) as u32, bit(self.params.ram3_4accessed) as u32, 1u32]);
            assert(entry_views(r@) =~= first + more_v);
            assert(first =~= seq![(Relation::InstToRam, g as int, kv)]);
        }
        r
    }

    /// The entries of every row of a main trace.
    pub fn generate_interaction_trace(&self, trace: &FinalizedTrace<StoreRow>) -> (r: Vec<
        LookupEntry,
    >)
        requires
            store_rows_decodable(trace.rows@, self.params.policy.opcode),
        ensures
            entry_views(r@) == store_entries(trace.rows@, self.params),
    {
        let mut builder = LogupTraceBuilder::new();
        let mut i: usize = 0;
        while i < trace.rows.len()
            invariant
                store_rows_decodable(trace.rows@, self.params.policy.opcode),
                0 <= i <= trace.rows@.len(),
                entry_views(builder.entries@) == store_entries(
                    trace.rows@.take(i as int),
                    self.params,
                ),
            decreases trace.rows@.len() - i,
        {
            let more = self.row_lookups(&trace.rows[i]);
            builder.extend(more);
            assert(trace.rows@.take(i + 1).drop_last() =~= trace.rows@.take(i as int));
            i = i + 1;
        }
        assert(trace.rows@.take(trace.rows@.len() as int) =~= trace.rows@);
        builder.finalize()
    }

    /// Evaluates every constraint of the component at one row.
    pub fn add_constraints(&self, row: &StoreRow) -> (r: Vec<BaseField>)
        ensures
            r@ == evals(store_constraint_exprs(*row, self.params.alignment)),
    {
        let mut out: Vec<BaseField> = Vec::new();
        constrain_common(&row.common, &mut out);
        let pad: bool = row.common.is_local_pad;
        let a = row.a_val;
        let c = row.c_val;
        let h = row.h_ram_base_addr;
        let h0: i64 = bit_of(row.h_carry[0]);
        let h1: i64 = bit_of(row.h_carry[1]);
        let alignment: u8 = self.params.alignment;
        let ghost before = out@;
        push_eval(
            &mut out,
            gate(
                pad,
                h[0] as i64 + h[1] as i64 * 0x100 - a[0] as i64 - a[1] as i64 * 0x100 - c[0] as i64
                    - c[1] as i64 * 0x100 + h0 * 0x1_0000,
            ),
        );
        push_eval(
            &mut out,
            gate(
                pad,
                h[2] as i64 + h[3] as i64 * 0x100 - h0 - a[2] as i64 - a[3] as i64 * 0x100 - c[2] as i64
                    - c[3] as i64 * 0x100 + h1 * 0x1_0000,
            ),
        );
        push_eval(&mut out, boolean_check(row.h_carry[0]));
        push_eval(&mut out, boolean_check(row.h_carry[1]));
        if alignment > 0 {
            assert(row.h_ram_base_addr_aux as int * alignment as int <= 0xff * 0xff)
                by (nonlinear_arith)
                requires
                    row.h_ram_base_addr_aux <= 0xff,
                    alignment <= 0xff,
            ;
            push_eval(
                &mut out,
                gate(pad, row.h_ram_base_addr_aux as i64 * alignment as i64 - h[0] as i64),
            );
        }
        proof {
            let pad = row.common.is_local_pad;
            let hc = row.h_carry;
            let tail4 = seq![
                gated(pad, h[0] + h[1] * 0x100 - a[0] - a[1] * 0x100 - c[0] - c[1] * 0x100 + bit(hc[0]) * 0x1_0000),
                gated(pad, h[2] + h[3] * 0x100 - bit(hc[0]) - a[2] - a[3] * 0x100 - c[2] - c[3] * 0x100 + bit(hc[1]) * 0x1_0000),
                bit(hc[0]) * (1 - bit(hc[0])),
                bit(hc[1]) * (1 - bit(hc[1])),
            ];
            let tail = if alignment > 0 {
                tail4.push(gated(pad, row.h_ram_base_addr_aux * alignment - h[0]))
            } else {
                tail4
            };
            assert(store_constraint_exprs(*row, alignment) =~= common_constraint_exprs(row.common)
                + tail);
            lemma_evals_append(common_constraint_exprs(row.common), tail);
            assert(out@ =~= before + evals(tail));
        }
        out
    }
}

proof fn lemma_selected_aligned(steps: Seq<ProgramStep>, op: BuiltinOpcode, alignment: u8)
    requires
        forall|i: int|
            0 <= i < steps.len() && steps[i].instruction.opcode == op ==> aligned(
                #[trigger] steps[i],
                alignment,
            ),
    ensures
        forall|j: int|
            0 <= j < selected(steps, op).len() ==> aligned(
                #[trigger] selected(steps, op)[j],
                alignment,
            ),
    decreases steps.len(),
{
    if steps.len() > 0 {
        let d = steps.drop_last();
        assert forall|i: int| 0 <= i < d.len() && d[i].instruction.opcode == op implies aligned(
            #[trigger] d[i],
            alignment,
        ) by {
            assert(d[i] == steps[i]);
        }
        lemma_selected_aligned(d, op, alignment);
        if steps.last().instruction.opcode == op {
            assert(aligned(steps[steps.len() - 1], alignment));
        }
        let prev = selected(d, op);
        assert forall|j: int| 0 <= j < selected(steps, op).len() implies aligned(
            #[trigger] selected(steps, op)[j],
            alignment,
        ) by {
            if j < prev.len() {
                assert(selected(steps, op)[j] == prev[j]);
            }
        }
    }
}

/// On a padding row whose carry columns are zero, every constraint vanishes, whatever the
/// other columns hold.
pub proof fn lemma_store_padding_closure(row: StoreRow, alignment: u8)
    requires
        row.common.is_local_pad,
    ensures
        all_zero_exprs(store_constraint_exprs(row, alignment)),
        all_zero(evals(store_constraint_exprs(row, alignment))),
{
    let e = store_constraint_exprs(row, alignment);
    lemma_gated_pad(row.common.is_local_pad);
    lemma_bool_check(row.common.clk_carry[0]);
    lemma_bool_check(row.common.clk_carry[1]);
    lemma_bool_check(row.common.pc_carry[0]);
    lemma_bool_check(row.common.pc_carry[1]);
    lemma_bool_check(row.h_carry[0]);
    lemma_bool_check(row.h_carry[1]);
    assert forall|k: int| 0 <= k < e.len() implies #[trigger] e[k] == 0 by {}
    lemma_all_zero_evals(e);
}

/// Every row that a step fills satisfies every constraint.
pub proof fn lemma_store_row_satisfies(row: StoreRow, step: ProgramStep, alignment: u8)
    requires
        store_row_of(row, step, alignment),
    ensures
        all_zero(evals(store_constraint_exprs(row, alignment))),
{
    let e = store_constraint_exprs(row, alignment);
    lemma_gated_real(false);
    lemma_bool_check(row.common.clk_carry[0]);
    lemma_bool_check(row.common.clk_carry[1]);
    lemma_bool_check(row.common.pc_carry[0]);
    lemma_bool_check(row.common.pc_carry[1]);
    lemma_bool_check(row.h_carry[0]);
    lemma_bool_check(row.h_carry[1]);
    assert forall|k: int| 0 <= k < e.len() implies #[trigger] e[k] == 0 by {}
    lemma_all_zero_evals(e);
}

/// A real row whose constraints all vanish in the field holds the address
/// `(a + c) mod 2^32`, and for an aligned store its low byte is a multiple of the alignment.
pub proof fn lemma_store_soundness(row: StoreRow, alignment: u8)
    requires
        !row.common.is_local_pad,
        alignment == 0 || alignment == 2 || alignment == 4,
        all_zero(evals(store_constraint_exprs(row, alignment))),
    ensures
        word_value(row.h_ram_base_addr) == (word_value(row.a_val) + word_value(row.c_val))
            % 0x1_0000_0000,
        alignment > 0 ==> row.h_ram_base_addr_aux * alignment == row.h_ram_base_addr[0],
{
    let e = store_constraint_exprs(row, alignment);
    lemma_gated_real(false);
    let (a, c, h, hc) = (row.a_val, row.c_val, row.h_ram_base_addr, row.h_carry);
    let lo = h[0] + h[1] * 0x100 - a[0] - a[1] * 0x100 - c[0] - c[1] * 0x100 + bit(hc[0])
        * 0x1_0000;
    let hi = h[2] + h[3] * 0x100 - bit(hc[0]) - a[2] - a[3] * 0x100 - c[2] - c[3] * 0x100 + bit(
        hc[1],
    ) * 0x1_0000;
    assert(e[8] == lo);
    assert(e[9] == hi);
    assert(evals(e)[8].v == 0);
    assert(evals(e)[9].v == 0);
    lemma_fe_zero_small(lo);
    lemma_fe_zero_small(hi);
    if alignment > 0 {
        let al = row.h_ram_base_addr_aux * alignment - h[0];
        assert(e[12] == al);
        assert(evals(e)[12].v == 0);
        assert(row.h_ram_base_addr_aux * alignment <= 0xff * 4) by (nonlinear_arith)
            requires
                row.h_ram_base_addr_aux <= 0xff,
                alignment <= 4,
        ;
        lemma_fe_zero_small(al);
    }
    vstd::arithmetic::div_mod::lemma_fundamental_div_mod_converse(
        word_value(a) + word_value(c),
        0x1_0000_0000,
        bit(hc[1]),
        word_value(h),
    );
}

} // verus!
