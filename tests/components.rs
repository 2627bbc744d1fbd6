use prover_machine::add::{Add, AddImm, AddReg};
use prover_machine::bitwise::{And, Andi, Bitwise, Or, Ori, Xor, Xori};
use prover_machine::cpu::Cpu;
use prover_machine::execution::ProgramStep;
use prover_machine::field::BaseField;
use prover_machine::instruction::{BuiltinOpcode, Instruction};
use prover_machine::logup::{claimed_sum, LookupElements, LookupEntry, Relation};
use prover_machine::multiplicity::BitwiseMultiplicity;
use prover_machine::side_note::SideNote;
use prover_machine::store::{Sb, Sh, Store, Sw};

fn sign_extend_12(imm: u32) -> u32 {
    if imm & 0x800 != 0 {
        imm | 0xffff_f000
    } else {
        imm
    }
}

/// Runs a straight-line block from pc 0 at clock 1, starting from the given registers.
fn run_from(mut regs: [u32; 32], instrs: &[Instruction]) -> Vec<ProgramStep> {
    let mut steps = Vec::new();
    for (i, instr) in instrs.iter().enumerate() {
        let b = regs[instr.op_b as usize];
        let c = match instr.opcode {
            BuiltinOpcode::ADD | BuiltinOpcode::AND | BuiltinOpcode::OR | BuiltinOpcode::XOR => {
                regs[instr.op_c as usize]
            }
            _ => sign_extend_12(instr.op_c),
        };
        let a = match instr.opcode {
            BuiltinOpcode::ADD | BuiltinOpcode::ADDI => b.wrapping_add(c),
            BuiltinOpcode::AND | BuiltinOpcode::ANDI => b & c,
            BuiltinOpcode::OR | BuiltinOpcode::ORI => b | c,
            BuiltinOpcode::XOR | BuiltinOpcode::XORI => b ^ c,
            BuiltinOpcode::SB | BuiltinOpcode::SH | BuiltinOpcode::SW => regs[instr.op_a as usize],
        };
        let is_store = matches!(
            instr.opcode,
            BuiltinOpcode::SB | BuiltinOpcode::SH | BuiltinOpcode::SW
        );
        if !is_store && instr.op_a != 0 {
            regs[instr.op_a as usize] = a;
        }
        steps.push(ProgramStep {
            pc: 4 * i as u32,
            timestamp: i as u32 + 1,
            instruction: *instr,
            value_a: if instr.op_a == 0 && !is_store { 0 } else { a },
            value_b: b,
            value_c: c,
        });
    }
    steps
}

fn run(instrs: &[Instruction]) -> Vec<ProgramStep> {
    run_from([0u32; 32], instrs)
}

fn elements() -> LookupElements {
    LookupElements {
        z: BaseField::from_u32(1_234_567_891),
        alpha: BaseField::from_u32(987_654_321),
    }
}

fn only(entries: &[LookupEntry], rel: Relation) -> Vec<LookupEntry> {
    entries
        .iter()
        .filter(|e| e.relation == rel)
        .map(|e| LookupEntry {
            relation: e.relation,
            multiplicity: e.multiplicity,
            key: e.key.clone(),
        })
        .collect()
}

/// The net multiplicity of every key of a relation is zero.
fn balanced(entries: &[LookupEntry], rel: Relation) -> bool {
    let es = only(entries, rel);
    es.iter().all(|e| {
        es.iter()
            .filter(|f| f.key == e.key)
            .map(|f| f.multiplicity)
            .sum::<i64>()
            == 0
    })
}

fn zero_sum(entries: &[LookupEntry], rel: Relation) -> bool {
    claimed_sum(&only(entries, rel), &elements()).numerator.is_zero()
}

fn all_zero(vals: &[BaseField]) -> bool {
    vals.iter().all(|v| v.is_zero())
}

fn cpu_entries(steps: &Vec<ProgramStep>) -> Vec<LookupEntry> {
    let trace = Cpu.generate_main_trace(steps);
    for row in trace.rows.iter() {
        assert!(all_zero(&Cpu.add_constraints(row)));
    }
    Cpu.generate_interaction_trace(&trace)
}

fn add_entries<A: prover_machine::add::AddOp>(c: &Add<A>, steps: &Vec<ProgramStep>) -> Vec<LookupEntry> {
    let trace = c.generate_main_trace(steps);
    for row in trace.rows.iter() {
        assert!(all_zero(&c.add_constraints(row)));
    }
    c.generate_interaction_trace(&trace)
}

fn bitwise_entries<T: prover_machine::bitwise::BitwiseOp>(
    c: &Bitwise<T>,
    steps: &Vec<ProgramStep>,
    side_note: &mut SideNote,
) -> Vec<LookupEntry> {
    let trace = c.generate_main_trace(steps, side_note);
    for row in trace.rows.iter() {
        assert!(all_zero(&c.add_constraints(row)));
    }
    c.generate_interaction_trace(&trace)
}

fn store_entries<T: prover_machine::store::StoreOp>(c: &Store<T>, steps: &Vec<ProgramStep>) -> Vec<LookupEntry> {
    let trace = c.generate_main_trace(steps);
    for row in trace.rows.iter() {
        assert!(all_zero(&c.add_constraints(row)));
    }
    c.generate_interaction_trace(&trace)
}

fn assert_closed_relations(entries: &[LookupEntry]) {
    for rel in [Relation::ProgramExecution, Relation::BitwiseInstr] {
        assert!(balanced(entries, rel));
        assert!(zero_sum(entries, rel));
    }
}

#[test]
fn assert_cpu_constraints() {
    let steps = run(&[
        Instruction::new_ir(BuiltinOpcode::ADDI, 1, 0, 1),
        Instruction::new_ir(BuiltinOpcode::ADD, 2, 1, 0),
        Instruction::new_ir(BuiltinOpcode::ADD, 3, 2, 1),
        Instruction::new_ir(BuiltinOpcode::ADD, 4, 3, 2),
        Instruction::new_ir(BuiltinOpcode::ADD, 5, 4, 3),
        Instruction::new_ir(BuiltinOpcode::ADD, 6, 5, 4),
    ]);
    let mut entries = cpu_entries(&steps);
    entries.extend(add_entries(&Add::new(AddReg), &steps));
    entries.extend(add_entries(&Add::new(AddImm), &steps));
    assert_closed_relations(&entries);
}

#[test]
fn assert_add_constraints() {
    let steps = run(&[
        Instruction::new_ir(BuiltinOpcode::ADDI, 1, 0, 127),
        Instruction::new_ir(BuiltinOpcode::ADD, 2, 1, 0),
        Instruction::new_ir(BuiltinOpcode::ADD, 3, 2, 1),
        Instruction::new_ir(BuiltinOpcode::ADD, 4, 3, 2),
        Instruction::new_ir(BuiltinOpcode::ADD, 5, 4, 3),
        Instruction::new_ir(BuiltinOpcode::ADD, 6, 5, 4),
        Instruction::new_ir(BuiltinOpcode::ADDI, 2, 1, 1230),
        Instruction::new_ir(BuiltinOpcode::ADDI, 3, 2, 1231),
        Instruction::new_ir(BuiltinOpcode::ADDI, 4, 3, 1232),
        Instruction::new_ir(BuiltinOpcode::ADDI, 5, 4, 1233),
        Instruction::new_ir(BuiltinOpcode::ADDI, 6, 5, 1234),
    ]);
    let mut entries = add_entries(&Add::new(AddReg), &steps);
    entries.extend(add_entries(&Add::new(AddImm), &steps));
    entries.extend(cpu_entries(&steps));
    assert_closed_relations(&entries);
}

fn assert_bitwise_block<T1, T2>(c1: Bitwise<T1>, c2: Bitwise<T2>, instrs: &[Instruction])
where
    T1: prover_machine::bitwise::BitwiseOp,
    T2: prover_machine::bitwise::BitwiseOp,
{
    let steps = run(instrs);
    let mut side_note = SideNote::new();
    let mut entries = bitwise_entries(&c1, &steps, &mut side_note);
    entries.extend(bitwise_entries(&c2, &steps, &mut side_note));
    entries.extend(cpu_entries(&steps));
    entries.extend(add_entries(&Add::new(AddReg), &steps));
    entries.extend(add_entries(&Add::new(AddImm), &steps));
    entries.extend(BitwiseMultiplicity.generate_interaction_trace(&side_note));
    assert_closed_relations(&entries);
}

#[test]
fn assert_and_constraints() {
    assert_bitwise_block(
        Bitwise::new(And),
        Bitwise::new(Andi),
        &[
            // 0b11100 & 0b01000 = 0b01000
            Instruction::new_ir(BuiltinOpcode::ADDI, 1, 0, 28),
            Instruction::new_ir(BuiltinOpcode::ADDI, 2, 0, 8),
            Instruction::new_ir(BuiltinOpcode::AND, 3, 1, 2),
            Instruction::new_ir(BuiltinOpcode::ANDI, 3, 1, 8),
        ],
    );
}

#[test]
fn assert_or_constraints() {
    assert_bitwise_block(
        Bitwise::new(Or),
        Bitwise::new(Ori),
        &[
            // 0b10010 | 0b01100 = 0b11110
            Instruction::new_ir(BuiltinOpcode::ADDI, 1, 0, 18),
            Instruction::new_ir(BuiltinOpcode::ADDI, 2, 0, 12),
            Instruction::new_ir(BuiltinOpcode::OR, 3, 1, 2),
            Instruction::new_ir(BuiltinOpcode::ORI, 3, 1, 12),
        ],
    );
}

#[test]
fn assert_xor_constraints() {
    assert_bitwise_block(
        Bitwise::new(Xor),
        Bitwise::new(Xori),
        &[
            // 0b11011 ^ 0b10101 = 0b01110
            Instruction::new_ir(BuiltinOpcode::ADDI, 1, 0, 27),
            Instruction::new_ir(BuiltinOpcode::ADDI, 2, 0, 21),
            Instruction::new_ir(BuiltinOpcode::XOR, 3, 1, 2),
            Instruction::new_ir(BuiltinOpcode::XORI, 3, 1, 21),
        ],
    );
}

fn assert_store_block<T: prover_machine::store::StoreOp>(component: Store<T>, opcode: BuiltinOpcode) {
    let mut regs = [0u32; 32];
    // x2 holds 0x81008
    regs[2] = 0x81008;
    let steps = run_from(regs, &[Instruction::new_ir(opcode, 2, 2, 0)]);
    let mut entries = store_entries(&component, &steps);
    entries.extend(cpu_entries(&steps));
    assert_closed_relations(&entries);
    let ram = only(&entries, Relation::InstToRam);
    assert_eq!(ram.len(), 16);
    assert_eq!(ram[0].multiplicity, 1);
    assert_eq!(&ram[0].key[2..6], &[0x08, 0x10, 0x08, 0x00]);
}

#[test]
fn assert_sb_constraints() {
    assert_store_block(Store::new(Sb), BuiltinOpcode::SB);
}

#[test]
fn assert_sh_constraints() {
    assert_store_block(Store::new(Sh), BuiltinOpcode::SH);
}

#[test]
fn assert_sw_constraints() {
    assert_store_block(Store::new(Sw), BuiltinOpcode::SW);
}

#[test]
fn four_instruction_block_sums_to_zero() {
    let steps = run(&[
        Instruction::new_ir(BuiltinOpcode::ADDI, 1, 0, 28),
        Instruction::new_ir(BuiltinOpcode::ADDI, 2, 0, 8),
        Instruction::new_ir(BuiltinOpcode::AND, 3, 1, 2),
        Instruction::new_ir(BuiltinOpcode::ANDI, 3, 1, 8),
    ]);
    assert_eq!(steps[2].value_a, 8);
    let mut side_note = SideNote::new();
    let mut entries = bitwise_entries(&Bitwise::new(And), &steps, &mut side_note);
    entries.extend(bitwise_entries(&Bitwise::new(Andi), &steps, &mut side_note));
    entries.extend(add_entries(&Add::new(AddImm), &steps));
    entries.extend(cpu_entries(&steps));
    entries.extend(BitwiseMultiplicity.generate_interaction_trace(&side_note));
    assert_closed_relations(&entries);
}

#[test]
fn corrupted_bitwise_result_is_detected() {
    let steps = run(&[
        Instruction::new_ir(BuiltinOpcode::ADDI, 1, 0, 28),
        Instruction::new_ir(BuiltinOpcode::ADDI, 2, 0, 8),
        Instruction::new_ir(BuiltinOpcode::AND, 3, 1, 2),
    ]);
    let and = Bitwise::new(And);
    let mut side_note = SideNote::new();
    let mut trace = and.generate_main_trace(&steps, &mut side_note);
    // 28 & 8 is 8: claim 9 instead
    trace.rows[0].a_val[0] = 9;
    let mut entries = and.generate_interaction_trace(&trace);
    entries.extend(BitwiseMultiplicity.generate_interaction_trace(&side_note));
    assert!(!balanced(&entries, Relation::BitwiseInstr));
    assert!(!zero_sum(&entries, Relation::BitwiseInstr));
}

#[test]
fn missing_step_breaks_continuity() {
    let steps = run(&[
        Instruction::new_ir(BuiltinOpcode::ADDI, 1, 0, 5),
        Instruction::new_ir(BuiltinOpcode::ADD, 2, 1, 1),
    ]);
    // only ADDI is proved: the ADD step is left unclaimed
    let mut entries = cpu_entries(&steps);
    entries.extend(add_entries(&Add::new(AddImm), &steps));
    assert!(!balanced(&entries, Relation::ProgramExecution));
    assert!(!zero_sum(&entries, Relation::ProgramExecution));
}
