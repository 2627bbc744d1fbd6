use prover_machine::columns::to_columns;
use prover_machine::add::{Add, AddImm, AddReg, AddRow};
use prover_machine::bitwise::{lookup_idx, Bitwise, Xor};
use prover_machine::cpu::{Cpu, CpuRow};
use prover_machine::execution::{pad_row, trace_log_size, ProgramStep};
use prover_machine::field::{BaseField, MODULUS};
use prover_machine::instruction::{decode, BuiltinOpcode, Instruction};
use prover_machine::logup::{claimed_sum, LogupTraceBuilder, LookupElements, Relation};
use prover_machine::side_note::SideNote;
use prover_machine::store::{Store, StoreRow, Sw};
use prover_machine::word::{
    add_16bit_with_carry, add_with_carries, u32_to_16bit_parts_le, u32_to_word, word_to_u32,
};

#[test]
fn field_arithmetic_wraps_at_the_modulus() {
    let a = BaseField::from_u32(MODULUS - 1);
    let one = BaseField::one();
    assert_eq!(a.add(one).v, 0);
    assert_eq!(BaseField::zero().sub(one).v, MODULUS - 1);
    assert_eq!(BaseField::from_u32(3).neg().v, MODULUS - 3);
    assert_eq!(BaseField::from_u32(1 << 16).mul(BaseField::from_u32(1 << 16)).v, 2);
    assert_eq!(BaseField::from_u32(u32::MAX).v, 1);
    assert_eq!(BaseField::from_i64(-1).v, MODULUS - 1);
    assert_eq!(BaseField::from_i64(-(MODULUS as i64) - 5).v, MODULUS - 5);
}

#[test]
fn limbs_and_carries() {
    assert_eq!(u32_to_16bit_parts_le(0x1234_5678), [0x5678, 0x1234]);
    assert_eq!(add_16bit_with_carry([0xfffe, 0x0001], 4), ([0x0002, 0x0002], [true, false]));
    assert_eq!(add_16bit_with_carry([0xffff, 0xffff], 1), ([0, 0], [true, true]));
    assert_eq!(u32_to_word(0x0102_0304), [4, 3, 2, 1]);
    assert_eq!(word_to_u32([4, 3, 2, 1]), 0x0102_0304);
}

#[test]
fn carry_correctness_on_overflowing_sum() {
    let x: u32 = 0xffff_ff01;
    let y: u32 = 0x0000_01ff;
    let (sum, carries) = add_with_carries(u32_to_word(x), u32_to_word(y));
    assert_eq!(word_to_u32(sum), x.wrapping_add(y));
    assert_eq!(carries, [true, true, true, true]);
    let (sum, carries) = add_with_carries(u32_to_word(0x00ff_00ff), u32_to_word(1));
    assert_eq!(word_to_u32(sum), 0x00ff_0100);
    assert_eq!(carries, [true, false, false, false]);
}

#[test]
fn encode_known_words() {
    assert_eq!(Instruction::new_ir(BuiltinOpcode::ADD, 3, 1, 2).encode(), 0x0020_81b3);
    assert_eq!(Instruction::new_ir(BuiltinOpcode::ADDI, 1, 0, 28).encode(), 0x01c0_0093);
    assert_eq!(Instruction::new_ir(BuiltinOpcode::ANDI, 3, 1, 8).encode(), 0x0080_f193);
    assert_eq!(Instruction::new_ir(BuiltinOpcode::SW, 2, 2, 0).encode(), 0x0021_2023);
    assert_eq!(Instruction::new_ir(BuiltinOpcode::SB, 1, 5, 0x7ff).encode(), 0x7e50_8fa3);
}

#[test]
fn decoding_round_trips() {
    let all = [
        BuiltinOpcode::ADD,
        BuiltinOpcode::ADDI,
        BuiltinOpcode::AND,
        BuiltinOpcode::ANDI,
        BuiltinOpcode::OR,
        BuiltinOpcode::ORI,
        BuiltinOpcode::XOR,
        BuiltinOpcode::XORI,
        BuiltinOpcode::SB,
        BuiltinOpcode::SH,
        BuiltinOpcode::SW,
    ];
    for op in all {
        let c = if matches!(
            op,
            BuiltinOpcode::ADD | BuiltinOpcode::AND | BuiltinOpcode::OR | BuiltinOpcode::XOR
        ) {
            31
        } else {
            0xabc
        };
        let i = Instruction::new_ir(op, 17, 9, c);
        assert_eq!(decode(i.encode()), Some(i));
    }
}

#[test]
fn decoding_rejects_other_words() {
    assert_eq!(decode(0), None);
    // SUB: funct7 0x20
    assert_eq!(decode(0x4020_81b3), None);
    // SLLI
    assert_eq!(decode(0x0010_9093), None);
}

#[test]
fn trace_height_is_a_power_of_two_of_at_least_sixteen_rows() {
    assert_eq!(trace_log_size(0), (4, 16));
    assert_eq!(trace_log_size(16), (4, 16));
    assert_eq!(trace_log_size(17), (5, 32));
    assert_eq!(trace_log_size(1000), (10, 1024));
}

#[test]
fn component_without_steps_is_all_padding() {
    let trace = Add::new(AddReg).generate_main_trace(&Vec::new());
    assert_eq!(trace.log_size, 4);
    assert_eq!(trace.rows.len(), 16);
    assert!(trace.rows.iter().all(|r| r.common.is_local_pad));
    let entries = Add::new(AddReg).generate_interaction_trace(&trace);
    assert!(entries.iter().all(|e| e.multiplicity == 0));
}

#[test]
fn padding_rows_satisfy_constraints_whatever_they_hold() {
    let mut common = pad_row();
    common.clk = [77, 3];
    common.pc_next = [9, 9];
    let row = AddRow {
        common,
        a_val: [1, 2, 3, 4],
        b_val: [5, 6, 7, 8],
        c_val: [9, 10, 11, 12],
        h_carry: [true, false],
    };
    assert!(Add::new(AddImm).add_constraints(&row).iter().all(|v| v.is_zero()));
    let row = StoreRow {
        common,
        a_val: [1, 2, 3, 4],
        b_val: [5, 6, 7, 8],
        c_val: [9, 10, 11, 12],
        h_ram_base_addr: [7, 7, 7, 7],
        h_carry: [true, true],
        h_ram_base_addr_aux: 3,
    };
    assert!(Store::new(Sw).add_constraints(&row).iter().all(|v| v.is_zero()));
}

#[test]
fn wrong_sum_violates_add_constraint() {
    let step = ProgramStep {
        pc: 8,
        timestamp: 3,
        instruction: Instruction::new_ir(BuiltinOpcode::ADD, 1, 2, 3),
        value_a: 300,
        value_b: 100,
        value_c: 200,
    };
    let add = Add::new(AddReg);
    let mut row = add.generate_trace_row(&step);
    assert_eq!(row.a_val, [44, 1, 0, 0]);
    assert!(add.add_constraints(&row).iter().all(|v| v.is_zero()));
    row.a_val[0] = 45;
    let vals = add.add_constraints(&row);
    assert_eq!(vals.len(), 10);
    assert_eq!(vals[8].v, 1);
}

#[test]
fn store_row_address_and_alignment() {
    let step = ProgramStep {
        pc: 0,
        timestamp: 1,
        instruction: Instruction::new_ir(BuiltinOpcode::SW, 2, 2, 0xffc),
        value_a: 0x8_1008,
        value_b: 0x8_1008,
        value_c: 0xffff_fffc,
    };
    let sw = Store::new(Sw);
    let row = sw.generate_trace_row(&step);
    assert_eq!(word_to_u32(row.h_ram_base_addr), 0x8_1004);
    assert_eq!(row.h_ram_base_addr_aux, 1);
    assert_eq!(row.h_carry, [true, true]);
    assert!(sw.add_constraints(&row).iter().all(|v| v.is_zero()));
}

#[test]
fn cpu_rows_and_clock_column() {
    let pre = Cpu.generate_preprocessed_trace(4);
    assert_eq!(pre.rows.len(), 16);
    assert_eq!(pre.rows[0], [1, 0]);
    assert_eq!(pre.rows[15], [16, 0]);
    let row = CpuRow { is_pad: false, pc: [6, 0], pc_aux: 1 };
    assert_eq!(Cpu.add_constraints(&row)[0].v, MODULUS - 2);
}

#[test]
fn bitwise_tally_lands_in_the_side_note() {
    let steps = vec![ProgramStep {
        pc: 0,
        timestamp: 1,
        instruction: Instruction::new_ir(BuiltinOpcode::XOR, 3, 1, 2),
        value_a: 0x35 ^ 0x0f,
        value_b: 0x35,
        value_c: 0x0f,
    }];
    let xor = Bitwise::new(Xor);
    assert_eq!(lookup_idx(BuiltinOpcode::XORI), 3);
    let mut side_note = SideNote::new();
    let trace = xor.generate_main_trace(&steps, &mut side_note);
    assert_eq!(trace.rows[0].a_val, [0x3a, 0, 0, 0]);
    // low nibbles (5, 15), high nibbles (3, 0), and six (0, 0) pairs
    assert_eq!(side_note.bitwise_accum_xor.accum[5 * 16 + 15], 1);
    assert_eq!(side_note.bitwise_accum_xor.accum[3 * 16], 1);
    assert_eq!(side_note.bitwise_accum_xor.accum[0], 6);
    assert!(side_note.bitwise_accum_and.accum.iter().all(|c| *c == 0));
}

#[test]
fn claimed_sum_of_matching_provide_and_consume_is_zero() {
    let elems = LookupElements { z: BaseField::from_u32(11), alpha: BaseField::from_u32(7) };
    let mut b = LogupTraceBuilder::new();
    b.add_to_relation_with(Relation::ProgramExecution, 1, vec![1, 0, 4, 0]);
    b.add_to_relation_with(Relation::ProgramExecution, 1, vec![2, 0, 8, 0]);
    b.add_to_relation_with(Relation::ProgramExecution, -1, vec![2, 0, 8, 0]);
    let one_left = claimed_sum(&b.entries, &elems);
    // 1 / (1 + 4 * 49 - 11) = 1 / 186
    assert_eq!(one_left.numerator.mul(BaseField::from_u32(186)), one_left.denominator);
    b.add_to_relation_with(Relation::ProgramExecution, -1, vec![1, 0, 4, 0]);
    let entries = b.finalize();
    assert!(claimed_sum(&entries, &elems).numerator.is_zero());
}

#[test]
fn trace_lays_out_as_equal_height_columns() {
    let steps = vec![ProgramStep {
        pc: 4,
        timestamp: 2,
        instruction: Instruction::new_ir(BuiltinOpcode::ADDI, 1, 0, 7),
        value_a: 7,
        value_b: 0,
        value_c: 7,
    }];
    let add = Add::new(AddImm);
    let trace = add.generate_main_trace(&steps);
    let cols = to_columns(&trace);
    assert_eq!(cols.cols.len(), 30);
    assert!(cols.cols.iter().all(|c| c.len() == 16));
    // is_local_pad, then pc and pc_next low limbs
    assert_eq!(cols.cols[0][0].v, 0);
    assert_eq!(cols.cols[0][1].v, 1);
    assert_eq!(cols.cols[1][0].v, 4);
    assert_eq!(cols.cols[3][0].v, 8);
    // a_val's low byte
    assert_eq!(cols.cols[16][0].v, 7);
    let cpu_cols = to_columns(&Cpu.generate_main_trace(&vec![ProgramStep { pc: 0, timestamp: 1, ..steps[0] }]));
    let joined = cols.concat(cpu_cols);
    assert_eq!(joined.cols.len(), 34);
    assert_eq!(joined.cols[33][0].v, 0);
}
