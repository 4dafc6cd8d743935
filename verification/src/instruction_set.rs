use vstd::prelude::*;

verus! {

/// The sixteen opcodes, selected by the top nibble of an instruction word.
#[derive(Clone, Copy, Debug, PartialEq, Eq, Structural)]
pub enum Opcodes {
    Branch,               // BR
    Add,                  // ADD
    Load,                 // LD
    Store,                // ST
    JumpRegister,         // JSR
    BitwiseAnd,           // AND
    LoadRegister,         // LDR
    StoreRegister,        // STR
    Unused,               // RTI
    Not,                  // NOT
    LoadIndirect,         // LDI
    StoreIndirect,        // STI
    Jump,                 // JMP
    Reserved,             // RES
    LoadEffectiveAddress, // LEA
    ExecuteTrap,          // TRAP
}

impl Opcodes {
    /// The nibble that encodes this opcode.
    pub open spec fn code(self) -> u16 {
        match self {
            Opcodes::Branch => 0,
            Opcodes::Add => 1,
            Opcodes::Load => 2,
            Opcodes::Store => 3,
            Opcodes::JumpRegister => 4,
            Opcodes::BitwiseAnd => 5,
            Opcodes::LoadRegister => 6,
            Opcodes::StoreRegister => 7,
            Opcodes::Unused => 8,
            Opcodes::Not => 9,
            Opcodes::LoadIndirect => 10,
            Opcodes::StoreIndirect => 11,
            Opcodes::Jump => 12,
            Opcodes::Reserved => 13,
            Opcodes::LoadEffectiveAddress => 14,
            Opcodes::ExecuteTrap => 15,
        }
    }

    /// Total decode over the 4-bit opcode space: every value below sixteen
    /// names an opcode, and nothing larger does.
    pub fn from(value: u16) -> (r: Option<Opcodes>)
        ensures
            value < 16 ==> (r matches Some(op) && op.code() == value),
            value >= 16 ==> r is None,
    {
        match value {
            0 => Some(Opcodes::Branch),
            1 => Some(Opcodes::Add),
            2 => Some(Opcodes::Load),
            3 => Some(Opcodes::Store),
            4 => Some(Opcodes::JumpRegister),
            5 => Some(Opcodes::BitwiseAnd),
            6 => Some(Opcodes::LoadRegister),
            7 => Some(Opcodes::StoreRegister),
            8 => Some(Opcodes::Unused),
            9 => Some(Opcodes::Not),
            10 => Some(Opcodes::LoadIndirect),
            11 => Some(Opcodes::StoreIndirect),
            12 => Some(Opcodes::Jump),
            13 => Some(Opcodes::Reserved),
            14 => Some(Opcodes::LoadEffectiveAddress),
            15 => Some(Opcodes::ExecuteTrap),
            _ => None,
        }
    }
}

/// Destination-register field, bits 11-9. For the store instructions the
/// same field names the source register.
pub open spec fn dest_field(instruction: u16) -> int {
    ((instruction >> 9) & 0x7) as int
}

/// First source-register field, bits 8-6; also the base register of the
/// register-offset loads and stores and the target of JMP and JSRR.
pub open spec fn src1_field(instruction: u16) -> int {
    ((instruction >> 6) & 0x7) as int
}

/// Second source-register field, bits 2-0.
pub open spec fn src2_field(instruction: u16) -> int {
    (instruction & 0x7) as int
}

/// Bit 5: when set, the second operand of ADD and AND is the sign-extended
/// 5-bit immediate instead of a register.
pub open spec fn imm_mode(instruction: u16) -> bool {
    (instruction >> 5) & 1 == 1
}

/// Bit 11 of JSR: when set, the target is PC-relative through the 11-bit
/// offset; when clear, it is read from the base register.
pub open spec fn long_flag(instruction: u16) -> bool {
    (instruction >> 11) & 1 == 1
}

/// Condition mask of BR, bits 11-9, matched bitwise against the condition
/// register.
pub open spec fn cond_field(instruction: u16) -> u16 {
    (instruction >> 9) & 0x7
}

/// Trap vector: the low byte of a TRAP instruction.
pub open spec fn trap_vector(instruction: u16) -> u16 {
    instruction & 0xFF
}

/// The operand fields of an instruction word stay inside their ranges:
/// register numbers below eight, the trap vector below 256, the opcode
/// nibble below sixteen.
pub proof fn lemma_fields_bounded(instruction: u16)
    ensures
        0 <= dest_field(instruction) < 8,
        0 <= src1_field(instruction) < 8,
        0 <= src2_field(instruction) < 8,
        cond_field(instruction) < 8,
        trap_vector(instruction) < 256,
        instruction >> 12 < 16,
{
    assert((instruction >> 9) & 0x7 < 8) by (bit_vector);
    assert((instruction >> 6) & 0x7 < 8) by (bit_vector);
    assert(instruction & 0x7 < 8) by (bit_vector);
    assert(instruction & 0xFF < 256) by (bit_vector);
    assert(instruction >> 12 < 16) by (bit_vector);
}

} // verus!
