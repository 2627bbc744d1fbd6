//! The execution-order relation: the CPU consumes the `(clk, pc)` of every step of a run,
//! and the execution components, each proving the steps of its own opcode, provide them.
use crate::add::{add_entries, AddRow};
use crate::bitwise::{bitwise_entries, bitwise_row_entries, nibble_entries, BitwiseRow};
use crate::cpu::{clk_limbs, cpu_entries, cpu_pad_row, cpu_row_of, is_run, CpuRow};
use crate::execution::{common_row_of, execution_entries, selected, ExecutionPolicy, ExecutionRow, ProgramStep};
use crate::instruction::BuiltinOpcode;
use crate::logup::{balanced, lemma_net_append, net, EntryView, Relation};
use crate::multiplicity::lemma_net_absent;
use crate::store::{store_entries, store_row_entries, StoreRow};
use crate::word::bit;
use vstd::prelude::*;

verus! {

/// A step's `(clk, pc)` as 16-bit limbs.
pub open spec fn step_key(step: ProgramStep) -> Seq<u32> {
    seq![(step.timestamp % 0x1_0000) as u32, (step.timestamp / 0x1_0000) as u32, (step.pc % 0x1_0000) as u32, (step.pc / 0x1_0000) as u32]
}

/// How many steps have the given `(clk, pc)` key.
pub open spec fn count_key(steps: Seq<ProgramStep>, key: Seq<u32>) -> int
    decreases steps.len(),
{
    if steps.len() == 0 {
        0
    } else {
        count_key(steps.drop_last(), key) + if step_key(steps.last()) == key {
            1int
        } else {
            0
        }
    }
}

pub open spec fn clk_pc_key(row: ExecutionRow) -> Seq<u32> {
    seq![row.clk[0] as u32, row.clk[1] as u32, row.pc[0] as u32, row.pc[1] as u32]
}

/// The real rows among `rows` that carry the given `(clk, pc)` key.
pub open spec fn pe_count(rows: Seq<ExecutionRow>, key: Seq<u32>) -> int
    decreases rows.len(),
{
    if rows.len() == 0 {
        0
    } else {
        pe_count(rows.drop_last(), key) + if clk_pc_key(rows.last()) == key {
            1 - bit(rows.last().is_local_pad)
        } else {
            0
        }
    }
}

/// The shared lookups of a row provide its `(clk, pc)` once, if it is real.
pub proof fn lemma_exec_pe_net(
    row: ExecutionRow,
    policy: ExecutionPolicy,
    a: crate::word::Word,
    b: crate::word::Word,
    c: crate::word::Word,
    key: Seq<u32>,
)
    ensures
        net(execution_entries(row, policy, a, b, c), Relation::ProgramExecution, key) == if key
            == clk_pc_key(row) {
            1 - bit(row.is_local_pad)
        } else {
            0
        },
{
    let s = execution_entries(row, policy, a, b, c);
    let first = s.take(1);
    let rest = s.skip(1);
    assert(s =~= first + rest);
    assert forall|i: int| 0 <= i < rest.len() implies (#[trigger] rest[i]).0
        != Relation::ProgramExecution by {}
    lemma_net_absent(rest, Relation::ProgramExecution, key);
    lemma_net_append(first, rest, Relation::ProgramExecution, key);
    assert(first.drop_last() =~= Seq::<EntryView>::empty());
    assert(net(Seq::<EntryView>::empty(), Relation::ProgramExecution, key) == 0);
    assert(first.last() == s[0]);
    assert(s[0].0 == Relation::ProgramExecution);
    assert(s[0].1 == 1 - bit(row.is_local_pad));
    assert(first.last().2 =~= clk_pc_key(row));
}

pub open spec fn add_commons(rows: Seq<AddRow>) -> Seq<ExecutionRow> {
    rows.map_values(|r: AddRow| r.common)
}

pub open spec fn store_commons(rows: Seq<StoreRow>) -> Seq<ExecutionRow> {
    rows.map_values(|r: StoreRow| r.common)
}

pub open spec fn bitwise_commons(rows: Seq<BitwiseRow>) -> Seq<ExecutionRow> {
    rows.map_values(|r: BitwiseRow| r.common)
}

pub proof fn lemma_add_pe_net(rows: Seq<AddRow>, policy: ExecutionPolicy, key: Seq<u32>)
    ensures
        net(add_entries(rows, policy), Relation::ProgramExecution, key) == pe_count(
            add_commons(rows),
            key,
        ),
    decreases rows.len(),
{
    if rows.len() > 0 {
        let d = rows.drop_last();
        let r = rows.last();
        lemma_add_pe_net(d, policy, key);
        lemma_exec_pe_net(r.common, policy, r.a_val, r.b_val, r.c_val, key);
        lemma_net_append(
            add_entries(d, policy),
            execution_entries(r.common, policy, r.a_val, r.b_val, r.c_val),
            Relation::ProgramExecution,
            key,
        );
        assert(add_commons(rows).drop_last() =~= add_commons(d));
    }
}

pub proof fn lemma_store_pe_net(
    rows: Seq<StoreRow>,
    params: crate::store::StoreParams,
    key: Seq<u32>,
)
    ensures
        net(store_entries(rows, params), Relation::ProgramExecution, key) == pe_count(
            store_commons(rows),
            key,
        ),
    decreases rows.len(),
{
    if rows.len() > 0 {
        let d = rows.drop_last();
        let r = rows.last();
        lemma_store_pe_net(d, params, key);
        let e = execution_entries(r.common, params.policy, r.a_val, r.b_val, r.c_val);
        let ram = store_row_entries(r, params).take(1);
        assert(store_row_entries(r, params) =~= ram + e);
        lemma_net_absent(ram, Relation::ProgramExecution, key);
        lemma_exec_pe_net(r.common, params.policy, r.a_val, r.b_val, r.c_val, key);
        lemma_net_append(ram, e, Relation::ProgramExecution, key);
        lemma_net_append(
            store_entries(d, params),
            store_row_entries(r, params),
            Relation::ProgramExecution,
            key,
        );
        assert(store_commons(rows).drop_last() =~= store_commons(d));
    }
}

pub proof fn lemma_bitwise_pe_net(
    rows: Seq<BitwiseRow>,
    policy: ExecutionPolicy,
    idx: u32,
    key: Seq<u32>,
)
    ensures
        net(bitwise_entries(rows, policy, idx), Relation::ProgramExecution, key) == pe_count(
            bitwise_commons(rows),
            key,
        ),
    decreases rows.len(),
{
    if rows.len() > 0 {
        let d = rows.drop_last();
        let r = rows.last();
        lemma_bitwise_pe_net(d, policy, idx, key);
        let e = execution_entries(r.common, policy, r.a_val, r.b_val, r.c_val);
        let n = nibble_entries(r, idx);
        lemma_net_absent(n, Relation::ProgramExecution, key);
        lemma_exec_pe_net(r.common, policy, r.a_val, r.b_val, r.c_val, key);
        lemma_net_append(n, e, Relation::ProgramExecution, key);
        lemma_net_append(
            bitwise_entries(d, policy, idx),
            bitwise_row_entries(r, policy, idx),
            Relation::ProgramExecution,
            key,
        );
        assert(bitwise_commons(rows).drop_last() =~= bitwise_commons(d));
    }
}

/// The 16-bit limbs of a value are its quotient and remainder by `2^16`.
proof fn lemma_limbs_of(l: [u16; 2], x: u32)
    requires
        crate::word::limbs_value(l) == x,
    ensures
        l[0] as int == x % 0x1_0000,
        l[1] as int == x / 0x1_0000,
{
    vstd::arithmetic::div_mod::lemma_fundamental_div_mod_converse(
        x as int,
        0x1_0000,
        l[1] as int,
        l[0] as int,
    );
}

/// The shared columns of the first rows hold the given steps and the rest are padding:
/// the real rows carry each step's key once.
pub proof fn lemma_rows_pe_count(rows: Seq<ExecutionRow>, sel: Seq<ProgramStep>, key: Seq<u32>)
    requires
        sel.len() <= rows.len(),
        forall|i: int| 0 <= i < sel.len() ==> common_row_of(#[trigger] rows[i], sel[i]),
        forall|i: int| sel.len() <= i < rows.len() ==> (#[trigger] rows[i]).is_local_pad,
    ensures
        pe_count(rows, key) == count_key(sel, key),
    decreases rows.len(),
{
    if rows.len() > 0 {
        let d = rows.drop_last();
        if rows.len() > sel.len() {
            assert forall|i: int| sel.len() <= i < d.len() implies (#[trigger] d[i]).is_local_pad by {
                assert(d[i] == rows[i]);
            }
            assert forall|i: int| 0 <= i < sel.len() implies common_row_of(#[trigger] d[i], sel[i]) by {
                assert(d[i] == rows[i]);
            }
            lemma_rows_pe_count(d, sel, key);
            assert(rows.last().is_local_pad);
        } else {
            let s = sel.drop_last();
            assert forall|i: int| 0 <= i < s.len() implies common_row_of(#[trigger] d[i], s[i]) by {
                assert(d[i] == rows[i]);
                assert(s[i] == sel[i]);
            }
            lemma_rows_pe_count(d, s, key);
            let r = rows.last();
            assert(common_row_of(rows[rows.len() - 1], sel[sel.len() - 1]));
            lemma_limbs_of(r.clk, sel.last().timestamp);
            lemma_limbs_of(r.pc, sel.last().pc);
            assert(clk_pc_key(r) =~= step_key(sel.last()));
        }
    } else {
        assert(sel.len() == 0);
    }
}

/// The CPU trace of a run consumes each step's key once.
pub proof fn lemma_cpu_pe_net(rows: Seq<CpuRow>, steps: Seq<ProgramStep>, key: Seq<u32>, m: int)
    requires
        is_run(steps),
        steps.len() <= rows.len(),
        0 <= m <= rows.len(),
        forall|i: int| 0 <= i < steps.len() ==> cpu_row_of(#[trigger] rows[i], steps[i]),
        forall|i: int| steps.len() <= i < rows.len() ==> cpu_pad_row(#[trigger] rows[i]),
    ensures
        net(cpu_entries(rows.take(m)), Relation::ProgramExecution, key) == -count_key(
            steps.take(if m < steps.len() {
                m
            } else {
                steps.len() as int
            }),
            key,
        ),
    decreases m,
{
    if m > 0 {
        lemma_cpu_pe_net(rows, steps, key, m - 1);
        let t = rows.take(m);
        assert(t.drop_last() =~= rows.take(m - 1));
        assert(t.last() == rows[m - 1]);
        let ce = cpu_entries(t);
        assert(ce.drop_last() =~= cpu_entries(rows.take(m - 1)));
        assert(ce.last() == crate::cpu::cpu_row_entry(rows[m - 1], m - 1));
        if m - 1 < steps.len() {
            let st = steps.take(m);
            assert(st.drop_last() =~= steps.take(m - 1));
            assert(st.last() == steps[m - 1]);
            assert(cpu_row_of(rows[m - 1], steps[m - 1]));
            assert(steps[m - 1].timestamp == m);
            lemma_limbs_of(rows[m - 1].pc, steps[m - 1].pc);
            assert(clk_limbs(m - 1) + seq![rows[m - 1].pc[0] as u32, rows[m - 1].pc[1] as u32]
                =~= step_key(steps[m - 1]));
        } else {
            assert(cpu_pad_row(rows[m - 1]));
        }
    } else {
        assert(rows.take(0) =~= Seq::<CpuRow>::empty());
        assert(steps.take(0) =~= Seq::<ProgramStep>::empty());
    }
}

/// The entries of several components, one after another.
pub open spec fn flatten(parts: Seq<Seq<EntryView>>) -> Seq<EntryView>
    decreases parts.len(),
{
    if parts.len() == 0 {
        Seq::empty()
    } else {
        flatten(parts.drop_last()) + parts.last()
    }
}

/// The keys a list of components provides, each proving the steps of one opcode.
pub open spec fn sum_selected(steps: Seq<ProgramStep>, ops: Seq<BuiltinOpcode>, key: Seq<u32>) -> int
    decreases ops.len(),
{
    if ops.len() == 0 {
        0
    } else {
        sum_selected(steps, ops.drop_last(), key) + count_key(selected(steps, ops.last()), key)
    }
}

pub open spec fn occurrences(ops: Seq<BuiltinOpcode>, o: BuiltinOpcode) -> int
    decreases ops.len(),
{
    if ops.len() == 0 {
        0
    } else {
        occurrences(ops.drop_last(), o) + if ops.last() == o {
            1int
        } else {
            0
        }
    }
}

proof fn lemma_occurrences_once(ops: Seq<BuiltinOpcode>, o: BuiltinOpcode)
    requires
        ops.no_duplicates(),
        ops.contains(o),
    ensures
        occurrences(ops, o) == 1,
    decreases ops.len(),
{
    let d = ops.drop_last();
    if ops.last() == o {
        assert(!d.contains(o)) by {
            if d.contains(o) {
                let j = choose|j: int| 0 <= j < d.len() && d[j] == o;
                assert(ops[j] == ops[ops.len() - 1]);
            }
        }
        lemma_occurrences_zero(d, o);
    } else {
        let j = choose|j: int| 0 <= j < ops.len() && ops[j] == o;
        assert(d[j] == o);
        assert(d.no_duplicates()) by {
            assert forall|a: int, b: int| 0 <= a < d.len() && 0 <= b < d.len() && a != b implies d[a]
                != d[b] by {
                assert(d[a] == ops[a] && d[b] == ops[b]);
            }
        }
        lemma_occurrences_once(d, o);
    }
}

proof fn lemma_occurrences_zero(ops: Seq<BuiltinOpcode>, o: BuiltinOpcode)
    requires
        !ops.contains(o),
    ensures
        occurrences(ops, o) == 0,
    decreases ops.len(),
{
    if ops.len() > 0 {
        let d = ops.drop_last();
        assert(!d.contains(o)) by {
            if d.contains(o) {
                let j = choose|j: int| 0 <= j < d.len() && d[j] == o;
                assert(ops[j] == o);
            }
        }
        lemma_occurrences_zero(d, o);
        assert(ops[ops.len() - 1] != o);
    }
}

/// Adding one step to a run adds, over all opcodes, its key once per occurrence of its
/// opcode.
proof fn lemma_sum_selected_step(steps: Seq<ProgramStep>, ops: Seq<BuiltinOpcode>, key: Seq<u32>)
    requires
        steps.len() > 0,
    ensures
        sum_selected(steps, ops, key) == sum_selected(steps.drop_last(), ops, key) + if step_key(
            steps.last(),
        ) == key {
            occurrences(ops, steps.last().instruction.opcode)
        } else {
            0
        },
    decreases ops.len(),
{
    if ops.len() > 0 {
        lemma_sum_selected_step(steps, ops.drop_last(), key);
        let o = ops.last();
        let sel = selected(steps, o);
        if steps.last().instruction.opcode == o {
            assert(sel.drop_last() =~= selected(steps.drop_last(), o));
        }
    }
}

/// Components for distinct opcodes that together cover every step of a run provide each
/// step's key exactly as often as the run holds it.
pub proof fn lemma_selected_partition(steps: Seq<ProgramStep>, ops: Seq<BuiltinOpcode>, key: Seq<u32>)
    requires
        ops.no_duplicates(),
        forall|i: int| 0 <= i < steps.len() ==> ops.contains(#[trigger] steps[i].instruction.opcode),
    ensures
        sum_selected(steps, ops, key) == count_key(steps, key),
    decreases steps.len(),
{
    if steps.len() > 0 {
        let d = steps.drop_last();
        assert forall|i: int| 0 <= i < d.len() implies ops.contains(#[trigger] d[i].instruction.opcode) by {
            assert(d[i] == steps[i]);
        }
        lemma_selected_partition(d, ops, key);
        lemma_sum_selected_step(steps, ops, key);
        assert(ops.contains(steps[steps.len() - 1].instruction.opcode));
        lemma_occurrences_once(ops, steps.last().instruction.opcode);
    } else {
        lemma_sum_selected_zero(steps, ops, key);
    }
}

proof fn lemma_sum_selected_zero(steps: Seq<ProgramStep>, ops: Seq<BuiltinOpcode>, key: Seq<u32>)
    requires
        steps.len() == 0,
    ensures
        sum_selected(steps, ops, key) == 0,
    decreases ops.len(),
{
    if ops.len() > 0 {
        lemma_sum_selected_zero(steps, ops.drop_last(), key);
    }
}

proof fn lemma_flatten_net(parts: Seq<Seq<EntryView>>, steps: Seq<ProgramStep>, ops: Seq<BuiltinOpcode>, key: Seq<u32>)
    requires
        parts.len() == ops.len(),
        forall|j: int|
            0 <= j < parts.len() ==> net(#[trigger] parts[j], Relation::ProgramExecution, key)
                == count_key(selected(steps, ops[j]), key),
    ensures
        net(flatten(parts), Relation::ProgramExecution, key) == sum_selected(steps, ops, key),
    decreases parts.len(),
{
    if parts.len() > 0 {
        let dp = parts.drop_last();
        let dops = ops.drop_last();
        assert forall|j: int| 0 <= j < dp.len() implies net(#[trigger] dp[j], Relation::ProgramExecution, key)
            == count_key(selected(steps, dops[j]), key) by {
            assert(dp[j] == parts[j] && dops[j] == ops[j]);
        }
        lemma_flatten_net(dp, steps, dops, key);
        assert(net(parts[parts.len() - 1], Relation::ProgramExecution, key) == count_key(
            selected(steps, ops[ops.len() - 1]),
            key,
        ));
        lemma_net_append(flatten(dp), parts.last(), Relation::ProgramExecution, key);
    }
}

/// Continuity: for a run, when each execution component proves the steps of its own
/// opcode, the opcodes are distinct and cover every step, the CPU's consumes and the
/// components' provides of `(clk, pc)` balance — every executed step is claimed by exactly
/// one execution row, and no two rows claim the same step.
pub proof fn lemma_continuity(
    steps: Seq<ProgramStep>,
    cpu_rows: Seq<CpuRow>,
    ops: Seq<BuiltinOpcode>,
    parts: Seq<Seq<EntryView>>,
)
    requires
        is_run(steps),
        steps.len() <= cpu_rows.len(),
        forall|i: int| 0 <= i < steps.len() ==> cpu_row_of(#[trigger] cpu_rows[i], steps[i]),
        forall|i: int| steps.len() <= i < cpu_rows.len() ==> cpu_pad_row(#[trigger] cpu_rows[i]),
        ops.no_duplicates(),
        forall|i: int| 0 <= i < steps.len() ==> ops.contains(#[trigger] steps[i].instruction.opcode),
        parts.len() == ops.len(),
        forall|j: int, key: Seq<u32>|
            0 <= j < parts.len() ==> #[trigger] net(parts[j], Relation::ProgramExecution, key)
                == count_key(selected(steps, ops[j]), key),
    ensures
        balanced(cpu_entries(cpu_rows) + flatten(parts), Relation::ProgramExecution),
{
    assert forall|key: Seq<u32>| #[trigger] net(cpu_entries(cpu_rows) + flatten(parts), Relation::ProgramExecution, key) == 0 by {
        lemma_cpu_pe_net(cpu_rows, steps, key, cpu_rows.len() as int);
        assert(cpu_rows.take(cpu_rows.len() as int) =~= cpu_rows);
        assert(steps.take(steps.len() as int) =~= steps);
        lemma_flatten_net(parts, steps, ops, key);
        lemma_selected_partition(steps, ops, key);
        lemma_net_append(cpu_entries(cpu_rows), flatten(parts), Relation::ProgramExecution, key);
    }
}

/// The main trace of an addition component provides `(clk, pc)` once for each step of
/// its opcode.
pub proof fn lemma_add_trace_provides(
    rows: Seq<AddRow>,
    policy: ExecutionPolicy,
    steps: Seq<ProgramStep>,
    key: Seq<u32>,
)
    requires
        selected(steps, policy.opcode).len() <= rows.len(),
        forall|i: int|
            0 <= i < selected(steps, policy.opcode).len() ==> crate::add::add_row_of(
                #[trigger] rows[i],
                selected(steps, policy.opcode)[i],
            ),
        forall|i: int|
            selected(steps, policy.opcode).len() <= i < rows.len() ==> crate::add::add_pad_row(
                #[trigger] rows[i],
            ),
    ensures
        net(add_entries(rows, policy), Relation::ProgramExecution, key) == count_key(
            selected(steps, policy.opcode),
            key,
        ),
{
    let sel = selected(steps, policy.opcode);
    let cs = add_commons(rows);
    assert forall|i: int| 0 <= i < sel.len() implies common_row_of(#[trigger] cs[i], sel[i]) by {
        assert(crate::add::add_row_of(rows[i], sel[i]));
    }
    assert forall|i: int| sel.len() <= i < cs.len() implies (#[trigger] cs[i]).is_local_pad by {
        assert(crate::add::add_pad_row(rows[i]));
    }
    lemma_add_pe_net(rows, policy, key);
    lemma_rows_pe_count(cs, sel, key);
}

/// The main trace of a store component provides `(clk, pc)` once for each step of its
/// opcode.
pub proof fn lemma_store_trace_provides(
    rows: Seq<StoreRow>,
    params: crate::store::StoreParams,
    steps: Seq<ProgramStep>,
    key: Seq<u32>,
)
    requires
        selected(steps, params.policy.opcode).len() <= rows.len(),
        forall|i: int|
            0 <= i < selected(steps, params.policy.opcode).len() ==> crate::store::store_row_of(
                #[trigger] rows[i],
                selected(steps, params.policy.opcode)[i],
                params.alignment,
            ),
        forall|i: int|
            selected(steps, params.policy.opcode).len() <= i < rows.len()
                ==> crate::store::store_pad_row(#[trigger] rows[i]),
    ensures
        net(store_entries(rows, params), Relation::ProgramExecution, key) == count_key(
            selected(steps, params.policy.opcode),
            key,
        ),
{
    let sel = selected(steps, params.policy.opcode);
    let cs = store_commons(rows);
    assert forall|i: int| 0 <= i < sel.len() implies common_row_of(#[trigger] cs[i], sel[i]) by {
        assert(crate::store::store_row_of(rows[i], sel[i], params.alignment));
    }
    assert forall|i: int| sel.len() <= i < cs.len() implies (#[trigger] cs[i]).is_local_pad by {
        assert(crate::store::store_pad_row(rows[i]));
    }
    lemma_store_pe_net(rows, params, key);
    lemma_rows_pe_count(cs, sel, key);
}

/// The main trace of a bitwise component provides `(clk, pc)` once for each step of its
/// opcode.
pub proof fn lemma_bitwise_trace_provides(
    rows: Seq<BitwiseRow>,
    policy: ExecutionPolicy,
    idx: u32,
    steps: Seq<ProgramStep>,
    key: Seq<u32>,
)
    requires
        selected(steps, policy.opcode).len() <= rows.len(),
        forall|i: int|
            0 <= i < selected(steps, policy.opcode).len() ==> crate::bitwise::bitwise_row_of(
                #[trigger] rows[i],
                selected(steps, policy.opcode)[i],
                idx,
            ),
        forall|i: int|
            selected(steps, policy.opcode).len() <= i < rows.len()
                ==> crate::bitwise::bitwise_pad_row(#[trigger] rows[i]),
    ensures
        net(bitwise_entries(rows, policy, idx), Relation::ProgramExecution, key) == count_key(
            selected(steps, policy.opcode),
            key,
        ),
{
    let sel = selected(steps, policy.opcode);
    let cs = bitwise_commons(rows);
    assert forall|i: int| 0 <= i < sel.len() implies common_row_of(#[trigger] cs[i], sel[i]) by {
        assert(crate::bitwise::bitwise_row_of(rows[i], sel[i], idx));
    }
    assert forall|i: int| sel.len() <= i < cs.len() implies (#[trigger] cs[i]).is_local_pad by {
        assert(crate::bitwise::bitwise_pad_row(rows[i]));
    }
    lemma_bitwise_pe_net(rows, policy, idx, key);
    lemma_rows_pe_count(cs, sel, key);
}

} // verus!
