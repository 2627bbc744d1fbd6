//! The instruction families handled by the execution components, and their 32-bit
//! RISC-V encoding.
use vstd::prelude::*;

verus! {

pub const OPCODE_OP: u32 = 0x33;

pub const OPCODE_OP_IMM: u32 = 0x13;

pub const OPCODE_STORE: u32 = 0x23;

#[derive(Clone, Copy, Debug, PartialEq, Eq, Structural)]
pub enum BuiltinOpcode {
    ADD,
    ADDI,
    AND,
    ANDI,
    OR,
    ORI,
    XOR,
    XORI,
    SB,
    SH,
    SW,
}

/// How the operands of an instruction are laid out in its word.
#[derive(Clone, Copy, Debug, PartialEq, Eq, Structural)]
pub enum Format {
    /// Three registers: `op_c` names the second source register.
    Register,
    /// Two registers and a 12-bit immediate in `op_c`.
    Immediate,
    /// A base register `op_a`, a source register `op_b` and a 12-bit offset in `op_c`.
    Store,
}

impl BuiltinOpcode {
    pub open spec fn spec_format(self) -> Format {
        match self {
            BuiltinOpcode::ADD | BuiltinOpcode::AND | BuiltinOpcode::OR | BuiltinOpcode::XOR => {
                Format::Register
            },
            BuiltinOpcode::SB | BuiltinOpcode::SH | BuiltinOpcode::SW => Format::Store,
            _ => Format::Immediate,
        }
    }

    pub open spec fn spec_fn3(self) -> u32 {
        match self {
            BuiltinOpcode::ADD | BuiltinOpcode::ADDI | BuiltinOpcode::SB => 0,
            BuiltinOpcode::SH => 1,
            BuiltinOpcode::SW => 2,
            BuiltinOpcode::XOR | BuiltinOpcode::XORI => 4,
            BuiltinOpcode::OR | BuiltinOpcode::ORI => 6,
            BuiltinOpcode::AND | BuiltinOpcode::ANDI => 7,
        }
    }

    pub open spec fn spec_raw(self) -> u32 {
        match self.spec_format() {
            Format::Register => OPCODE_OP,
            Format::Immediate => OPCODE_OP_IMM,
            Format::Store => OPCODE_STORE,
        }
    }

    pub fn format(&self) -> (r: Format)
        ensures
            r == self.spec_format(),
    {
        match self {
            BuiltinOpcode::ADD | BuiltinOpcode::AND | BuiltinOpcode::OR | BuiltinOpcode::XOR => {
                Format::Register
            },
            BuiltinOpcode::SB | BuiltinOpcode::SH | BuiltinOpcode::SW => Format::Store,
            _ => Format::Immediate,
        }
    }

    /// The `funct3` field that tells the members of one format apart.
    pub fn fn3(&self) -> (r: u32)
        ensures
            r == self.spec_fn3(),
    {
        match self {
            BuiltinOpcode::ADD | BuiltinOpcode::ADDI | BuiltinOpcode::SB => 0,
            BuiltinOpcode::SH => 1,
            BuiltinOpcode::SW => 2,
            BuiltinOpcode::XOR | BuiltinOpcode::XORI => 4,
            BuiltinOpcode::OR | BuiltinOpcode::ORI => 6,
            BuiltinOpcode::AND | BuiltinOpcode::ANDI => 7,
        }
    }

    /// The 7-bit major opcode.
    pub fn raw(&self) -> (r: u32)
        ensures
            r == self.spec_raw(),
    {
        match self.format() {
            Format::Register => OPCODE_OP,
            Format::Immediate => OPCODE_OP_IMM,
            Format::Store => OPCODE_STORE,
        }
    }
}

/// One instruction: `op_a` and `op_b` are register indices; `op_c` is a register index or a
/// raw 12-bit immediate, as the format says.
#[derive(Clone, Copy, Debug, PartialEq, Eq, Structural)]
pub struct Instruction {
    pub opcode: BuiltinOpcode,
    pub op_a: u8,
    pub op_b: u8,
    pub op_c: u32,
}

/// Places the six fields of a 32-bit instruction word.
pub open spec fn pack(op: u32, lo5: u32, f3: u32, rs1: u32, mid5: u32, hi7: u32) -> u32 {
    (hi7 << 25u32) | (mid5 << 20u32) | (rs1 << 15u32) | (f3 << 12u32) | (lo5 << 7u32) | op
}

pub open spec fn field_op(w: u32) -> u32 {
    w & 0x7f
}

pub open spec fn field_lo5(w: u32) -> u32 {
    (w >> 7u32) & 0x1f
}

pub open spec fn field_f3(w: u32) -> u32 {
    (w >> 12u32) & 0x7
}

pub open spec fn field_rs1(w: u32) -> u32 {
    (w >> 15u32) & 0x1f
}

pub open spec fn field_mid5(w: u32) -> u32 {
    (w >> 20u32) & 0x1f
}

pub open spec fn field_hi7(w: u32) -> u32 {
    w >> 25u32
}

/// Each field of a packed word reads back as it was placed.
pub proof fn lemma_pack_fields(op: u32, lo5: u32, f3: u32, rs1: u32, mid5: u32, hi7: u32)
    requires
        op < 0x80,
        lo5 < 0x20,
        f3 < 8,
        rs1 < 0x20,
        mid5 < 0x20,
        hi7 < 0x80,
    ensures
        field_op(pack(op, lo5, f3, rs1, mid5, hi7)) == op,
        field_lo5(pack(op, lo5, f3, rs1, mid5, hi7)) == lo5,
        field_f3(pack(op, lo5, f3, rs1, mid5, hi7)) == f3,
        field_rs1(pack(op, lo5, f3, rs1, mid5, hi7)) == rs1,
        field_mid5(pack(op, lo5, f3, rs1, mid5, hi7)) == mid5,
        field_hi7(pack(op, lo5, f3, rs1, mid5, hi7)) == hi7,
{
    assert(field_op(pack(op, lo5, f3, rs1, mid5, hi7)) == op) by (bit_vector)
        requires
            op < 0x80,
            lo5 < 0x20,
            f3 < 8,
            rs1 < 0x20,
            mid5 < 0x20,
            hi7 < 0x80,
    ;
    assert(field_lo5(pack(op, lo5, f3, rs1, mid5, hi7)) == lo5) by (bit_vector)
        requires
            op < 0x80,
            lo5 < 0x20,
            f3 < 8,
            rs1 < 0x20,
            mid5 < 0x20,
            hi7 < 0x80,
    ;
    assert(field_f3(pack(op, lo5, f3, rs1, mid5, hi7)) == f3) by (bit_vector)
        requires
            op < 0x80,
            lo5 < 0x20,
            f3 < 8,
            rs1 < 0x20,
            mid5 < 0x20,
            hi7 < 0x80,
    ;
    assert(field_rs1(pack(op, lo5, f3, rs1, mid5, hi7)) == rs1) by (bit_vector)
        requires
            op < 0x80,
            lo5 < 0x20,
            f3 < 8,
            rs1 < 0x20,
            mid5 < 0x20,
            hi7 < 0x80,
    ;
    assert(field_mid5(pack(op, lo5, f3, rs1, mid5, hi7)) == mid5) by (bit_vector)
        requires
            op < 0x80,
            lo5 < 0x20,
            f3 < 8,
            rs1 < 0x20,
            mid5 < 0x20,
            hi7 < 0x80,
    ;
    assert(field_hi7(pack(op, lo5, f3, rs1, mid5, hi7)) == hi7) by (bit_vector)
        requires
            op < 0x80,
            lo5 < 0x20,
            f3 < 8,
            rs1 < 0x20,
            mid5 < 0x20,
            hi7 < 0x80,
    ;
}

/// A 12-bit immediate split into its high seven and low five bits, and joined back.
pub proof fn lemma_imm_split(imm: u32)
    requires
        imm < 0x1000,
    ensures
        imm >> 5u32 < 0x80,
        imm & 0x1f < 0x20,
        ((imm >> 5u32) << 5u32) | (imm & 0x1f) == imm,
        (imm >> 5u32) == imm / 0x20,
        (imm & 0x1f) == imm % 0x20,
{
    assert(imm >> 5u32 < 0x80) by (bit_vector)
        requires
            imm < 0x1000,
    ;
    assert(imm & 0x1f < 0x20) by (bit_vector);
    assert(((imm >> 5u32) << 5u32) | (imm & 0x1f) == imm) by (bit_vector);
    assert((imm >> 5u32) == imm / 0x20) by (bit_vector);
    assert((imm & 0x1f) == imm % 0x20) by (bit_vector);
}

/// Joins a high seven and a low five bits into a 12-bit immediate.
pub proof fn lemma_imm_join(hi7: u32, lo5: u32)
    requires
        hi7 < 0x80,
        lo5 < 0x20,
    ensures
        (hi7 << 5u32) | lo5 == hi7 * 0x20 + lo5,
        (hi7 << 5u32) | lo5 < 0x1000,
        ((hi7 << 5u32) | lo5) >> 5u32 == hi7,
        ((hi7 << 5u32) | lo5) & 0x1f == lo5,
{
    assert((hi7 << 5u32) | lo5 == hi7 * 0x20 + lo5) by (bit_vector)
        requires
            hi7 < 0x80,
            lo5 < 0x20,
    ;
    assert(((hi7 << 5u32) | lo5) >> 5u32 == hi7) by (bit_vector)
        requires
            hi7 < 0x80,
            lo5 < 0x20,
    ;
    assert(((hi7 << 5u32) | lo5) & 0x1f == lo5) by (bit_vector)
        requires
            hi7 < 0x80,
            lo5 < 0x20,
    ;
}

impl Instruction {
    /// Register indices name one of the 32 registers; an immediate has 12 bits.
    pub open spec fn wf(self) -> bool {
        &&& self.op_a < 32
        &&& self.op_b < 32
        &&& match self.opcode.spec_format() {
            Format::Register => self.op_c < 32,
            _ => self.op_c < 0x1000,
        }
    }

    /// The instruction's 32-bit word.
    pub open spec fn spec_encode(self) -> u32 {
        let op = self.opcode.spec_raw();
        let f3 = self.opcode.spec_fn3();
        match self.opcode.spec_format() {
            Format::Register => pack(op, self.op_a as u32, f3, self.op_b as u32, self.op_c, 0),
            Format::Immediate => pack(
                op,
                self.op_a as u32,
                f3,
                self.op_b as u32,
                self.op_c & 0x1f,
                self.op_c >> 5u32,
            ),
            Format::Store => pack(
                op,
                self.op_c & 0x1f,
                f3,
                self.op_a as u32,
                self.op_b as u32,
                self.op_c >> 5u32,
            ),
        }
    }

    pub fn new_ir(opcode: BuiltinOpcode, op_a: u8, op_b: u8, op_c: u32) -> (r: Instruction)
        ensures
            r == (Instruction { opcode, op_a, op_b, op_c }),
    {
        Instruction { opcode, op_a, op_b, op_c }
    }

    /// Encodes the instruction as its 32-bit word.
    pub fn encode(&self) -> (r: u32)
        requires
            self.wf(),
        ensures
            r == self.spec_encode(),
    {
        let op = self.opcode.raw();
        let f3 = self.opcode.fn3();
        let (lo5, rs1, mid5, hi7): (u32, u32, u32, u32) = match self.opcode.format() {
            Format::Register => (self.op_a as u32, self.op_b as u32, self.op_c, 0),
            Format::Immediate => (
                self.op_a as u32,
                self.op_b as u32,
                self.op_c & 0x1f,
                self.op_c >> 5u32,
            ),
            Format::Store => (
                self.op_c & 0x1f,
                self.op_a as u32,
                self.op_b as u32,
                self.op_c >> 5u32,
            ),
        };
        (hi7 << 25u32) | (mid5 << 20u32) | (rs1 << 15u32) | (f3 << 12u32) | (lo5 << 7u32) | op
    }
}

/// The fields of an encoded instruction hold its opcode and operands.
pub proof fn lemma_encode_fields(i: Instruction)
    requires
        i.wf(),
    ensures
        field_op(i.spec_encode()) == i.opcode.spec_raw(),
        field_f3(i.spec_encode()) == i.opcode.spec_fn3(),
        i.opcode.spec_format() == Format::Register ==> field_lo5(i.spec_encode()) == i.op_a
            && field_rs1(i.spec_encode()) == i.op_b && field_mid5(i.spec_encode()) == i.op_c
            && field_hi7(i.spec_encode()) == 0,
        i.opcode.spec_format() == Format::Immediate ==> field_lo5(i.spec_encode()) == i.op_a
            && field_rs1(i.spec_encode()) == i.op_b && (field_hi7(i.spec_encode()) << 5u32)
            | field_mid5(i.spec_encode()) == i.op_c,
        i.opcode.spec_format() == Format::Store ==> field_rs1(i.spec_encode()) == i.op_a
            && field_mid5(i.spec_encode()) == i.op_b && (field_hi7(i.spec_encode()) << 5u32)
            | field_lo5(i.spec_encode()) == i.op_c,
{
    let op = i.opcode.spec_raw();
    let f3 = i.opcode.spec_fn3();
    match i.opcode.spec_format() {
        Format::Register => {
            lemma_pack_fields(op, i.op_a as u32, f3, i.op_b as u32, i.op_c, 0);
        },
        Format::Immediate => {
            lemma_imm_split(i.op_c);
            lemma_pack_fields(
                op,
                i.op_a as u32,
                f3,
                i.op_b as u32,
                i.op_c & 0x1f,
                i.op_c >> 5u32,
            );
        },
        Format::Store => {
            lemma_imm_split(i.op_c);
            lemma_pack_fields(
                op,
                i.op_c & 0x1f,
                f3,
                i.op_a as u32,
                i.op_b as u32,
                i.op_c >> 5u32,
            );
        },
    }
}

/// The opcode of the given format whose `funct3` field is `f3`, if there is one.
fn opcode_of(format: Format, f3: u32) -> (r: Option<BuiltinOpcode>)
    ensures
        r matches Some(o) ==> o.spec_format() == format && o.spec_fn3() == f3,
        r is None ==> forall|o: BuiltinOpcode|
            !(o.spec_format() == format && #[trigger] o.spec_fn3() == f3),
{
    match (format, f3) {
        (Format::Register, 0) => Some(BuiltinOpcode::ADD),
        (Format::Register, 4) => Some(BuiltinOpcode::XOR),
        (Format::Register, 6) => Some(BuiltinOpcode::OR),
        (Format::Register, 7) => Some(BuiltinOpcode::AND),
        (Format::Immediate, 0) => Some(BuiltinOpcode::ADDI),
        (Format::Immediate, 4) => Some(BuiltinOpcode::XORI),
        (Format::Immediate, 6) => Some(BuiltinOpcode::ORI),
        (Format::Immediate, 7) => Some(BuiltinOpcode::ANDI),
        (Format::Store, 0) => Some(BuiltinOpcode::SB),
        (Format::Store, 1) => Some(BuiltinOpcode::SH),
        (Format::Store, 2) => Some(BuiltinOpcode::SW),
        _ => None,
    }
}

/// Decodes a 32-bit word into the instruction it encodes, if it encodes one of the
/// supported instructions.
pub fn decode(w: u32) -> (r: Option<Instruction>)
    ensures
        r == spec_decode(w),
        r matches Some(i) ==> i.wf() && i.spec_encode() == w,
        r is None ==> forall|i: Instruction| i.wf() ==> #[trigger] i.spec_encode() != w,
{
    let op: u32 = w & 0x7f;
    let lo5: u32 = (w >> 7u32) & 0x1f;
    let f3: u32 = (w >> 12u32) & 0x7;
    let rs1: u32 = (w >> 15u32) & 0x1f;
    let mid5: u32 = (w >> 20u32) & 0x1f;
    let hi7: u32 = w >> 25u32;
    assert(lo5 < 0x20 && rs1 < 0x20 && mid5 < 0x20 && hi7 < 0x80 && op < 0x80 && f3 < 8)
        by (bit_vector)
        requires
            op == w & 0x7f,
            lo5 == (w >> 7u32) & 0x1f,
            f3 == (w >> 12u32) & 0x7,
            rs1 == (w >> 15u32) & 0x1f,
            mid5 == (w >> 20u32) & 0x1f,
            hi7 == w >> 25u32,
    ;
    assert(pack(op, lo5, f3, rs1, mid5, hi7) == w) by (bit_vector)
        requires
            op == w & 0x7f,
            lo5 == (w >> 7u32) & 0x1f,
            f3 == (w >> 12u32) & 0x7,
            rs1 == (w >> 15u32) & 0x1f,
            mid5 == (w >> 20u32) & 0x1f,
            hi7 == w >> 25u32,
    ;
    let format: Option<Format> = if op == OPCODE_OP && hi7 == 0 {
        Some(Format::Register)
    } else if op == OPCODE_OP_IMM {
        Some(Format::Immediate)
    } else if op == OPCODE_STORE {
        Some(Format::Store)
    } else {
        None
    };
    let r: Option<Instruction> = match format {
        None => None,
        Some(format) => match opcode_of(format, f3) {
            None => None,
            Some(opcode) => {
                proof {
                    lemma_imm_join(hi7, lo5);
                    lemma_imm_join(hi7, mid5);
                }
                Some(
                    match format {
                        Format::Register => Instruction {
                            opcode,
                            op_a: lo5 as u8,
                            op_b: rs1 as u8,
                            op_c: mid5,
                        },
                        Format::Immediate => Instruction {
                            opcode,
                            op_a: lo5 as u8,
                            op_b: rs1 as u8,
                            op_c: (hi7 << 5u32) | mid5,
                        },
                        Format::Store => Instruction {
                            opcode,
                            op_a: rs1 as u8,
                            op_b: mid5 as u8,
                            op_c: (hi7 << 5u32) | lo5,
                        },
                    },
                )
            },
        },
    };
    proof {
        if let Some(i) = r {
            lemma_encode_fields(i);
            assert(i.wf());
            assert(i.spec_encode() == pack(op, lo5, f3, rs1, mid5, hi7)) by {
                lemma_imm_join(hi7, lo5);
                lemma_imm_join(hi7, mid5);
                lemma_imm_split(i.op_c);
            }
        } else {
            assert forall|i: Instruction| i.wf() implies #[trigger] i.spec_encode() != w by {
                lemma_encode_fields(i);
                if i.spec_encode() == w {
                    assert(field_op(w) == op && field_f3(w) == f3 && field_hi7(w) == hi7);
                    assert(i.opcode.spec_fn3() == f3);
                }
            }
        }
        if let Some(i) = r {
            let j = choose|j: Instruction| j.wf() && #[trigger] j.spec_encode() == w;
            lemma_encode_injective(i, j);
        }
    }
    r
}

/// Two well-formed instructions with the same word are the same instruction.
pub proof fn lemma_encode_injective(i: Instruction, j: Instruction)
    requires
        i.wf(),
        j.wf(),
        i.spec_encode() == j.spec_encode(),
    ensures
        i == j,
{
    lemma_encode_fields(i);
    lemma_encode_fields(j);
    assert(j.opcode.spec_raw() == i.opcode.spec_raw());
    assert(j.opcode.spec_format() == i.opcode.spec_format());
    assert(j.opcode == i.opcode);
}

/// The instruction a word encodes, if it encodes one.
pub open spec fn spec_decode(w: u32) -> Option<Instruction> {
    if exists|i: Instruction| i.wf() && #[trigger] i.spec_encode() == w {
        Some(choose|i: Instruction| i.wf() && #[trigger] i.spec_encode() == w)
    } else {
        None
    }
}

/// Decoding the word of an instruction gives the instruction back, with every operand bit.
pub proof fn lemma_decode_round_trip(i: Instruction)
    requires
        i.wf(),
    ensures
        spec_decode(i.spec_encode()) == Some(i),
{
    let w = i.spec_encode();
    assert(exists|j: Instruction| j.wf() && #[trigger] j.spec_encode() == w);
    let j = choose|j: Instruction| j.wf() && #[trigger] j.spec_encode() == w;
    lemma_encode_injective(i, j);
}

} // verus!
