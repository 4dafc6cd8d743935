use lc3_vm::condition_flags::ConditionFlags;
use lc3_vm::input::InputQueue;
use lc3_vm::instruction_set::Opcodes;
use lc3_vm::memory::Memory;
use lc3_vm::registers::{RegisterCodes, Registers, TrapCodes};

fn fresh_registers() -> Registers {
    let mut registers = Registers::new();
    registers.set_condition_flag(ConditionFlags::Zero);
    registers
}

#[test]
fn add_immediate_sets_positive_flag() {
    let mut registers = fresh_registers();
    registers.perform_add(0x1025); // ADD R0, R0, #5
    assert_eq!(registers.read(RegisterCodes::R0), 5);
    assert_eq!(
        registers.read(RegisterCodes::ConditionFlags),
        ConditionFlags::Positive.word()
    );
}

#[test]
fn add_immediate_negative_sets_negative_flag() {
    let mut registers = fresh_registers();
    registers.perform_add(0x103F); // ADD R0, R0, #-1
    assert_eq!(registers.read(RegisterCodes::R0), 0xFFFF);
    assert_eq!(
        registers.read(RegisterCodes::ConditionFlags),
        ConditionFlags::Negative.word()
    );
}

#[test]
fn add_zero_result_sets_zero_flag() {
    let mut registers = fresh_registers();
    registers.perform_add(0x1220); // ADD R1, R0, #0
    assert_eq!(registers.read(RegisterCodes::R1), 0);
    assert_eq!(
        registers.read(RegisterCodes::ConditionFlags),
        ConditionFlags::Zero.word()
    );
}

#[test]
fn add_register_mode_wraps() {
    let mut registers = fresh_registers();
    registers.write(RegisterCodes::R0, 0xFFFF);
    registers.write(RegisterCodes::R1, 0x0002);
    registers.perform_add(0x1401); // ADD R2, R0, R1
    assert_eq!(registers.read(RegisterCodes::R2), 0x0001);
    assert_eq!(
        registers.read(RegisterCodes::ConditionFlags),
        ConditionFlags::Positive.word()
    );
}

#[test]
fn and_immediate_masks() {
    let mut registers = fresh_registers();
    registers.write(RegisterCodes::R1, 0xF0F0);
    registers.perform_bitwise_and(0x546F); // AND R2, R1, #15
    assert_eq!(registers.read(RegisterCodes::R2), 0x0000);
    assert_eq!(
        registers.read(RegisterCodes::ConditionFlags),
        ConditionFlags::Zero.word()
    );
}

#[test]
fn and_register_mode() {
    let mut registers = fresh_registers();
    registers.write(RegisterCodes::R0, 0x0FF0);
    registers.write(RegisterCodes::R1, 0x00FF);
    registers.perform_bitwise_and(0x5401); // AND R2, R0, R1
    assert_eq!(registers.read(RegisterCodes::R2), 0x00F0);
}

#[test]
fn not_complements_and_updates_flags() {
    let mut registers = fresh_registers();
    registers.write(RegisterCodes::R1, 0x00FF);
    registers.perform_not(0x947F); // NOT R2, R1
    assert_eq!(registers.read(RegisterCodes::R2), 0xFF00);
    assert_eq!(
        registers.read(RegisterCodes::ConditionFlags),
        ConditionFlags::Negative.word()
    );
}

#[test]
fn jump_sets_program_counter() {
    let mut registers = fresh_registers();
    registers.write(RegisterCodes::R1, 0x4000);
    registers.perform_jump(0xC040); // JMP R1
    assert_eq!(registers.read(RegisterCodes::ProgramCounter), 0x4000);
}

#[test]
fn jump_register_long_is_pc_relative() {
    let mut registers = fresh_registers();
    registers.set_program_counter(0x3001);
    registers.perform_jump_register(0x4805); // JSR #5
    assert_eq!(registers.read(RegisterCodes::R7), 0x3001);
    assert_eq!(registers.read(RegisterCodes::ProgramCounter), 0x3006);
}

#[test]
fn jump_register_short_uses_base_register() {
    let mut registers = fresh_registers();
    registers.set_program_counter(0x3001);
    registers.write(RegisterCodes::R1, 0x4000);
    registers.perform_jump_register(0x4040); // JSRR R1
    assert_eq!(registers.read(RegisterCodes::R7), 0x3001);
    assert_eq!(registers.read(RegisterCodes::ProgramCounter), 0x4000);
}

#[test]
fn load_reads_pc_relative() {
    let mut registers = fresh_registers();
    let mut memory = Memory::new();
    let mut input = InputQueue::new();
    registers.set_program_counter(0x3001);
    memory.write(0x3003, 0xABCD);
    registers.perform_load(0x2202, &mut memory, &mut input); // LD R1, #2
    assert_eq!(registers.read(RegisterCodes::R1), 0xABCD);
    assert_eq!(
        registers.read(RegisterCodes::ConditionFlags),
        ConditionFlags::Negative.word()
    );
}

#[test]
fn store_writes_pc_relative() {
    let mut registers = fresh_registers();
    let mut memory = Memory::new();
    registers.set_program_counter(0x3001);
    registers.write(RegisterCodes::R1, 0x0042);
    registers.perform_store(0x3202, &mut memory); // ST R1, #2
    assert_eq!(memory.peek(0x3003), 0x0042);
}

#[test]
fn load_register_reads_base_plus_offset() {
    let mut registers = fresh_registers();
    let mut memory = Memory::new();
    let mut input = InputQueue::new();
    registers.write(RegisterCodes::R1, 0x4000);
    memory.write(0x4001, 0x1234);
    registers.perform_load_register(0x6441, &mut memory, &mut input); // LDR R2, R1, #1
    assert_eq!(registers.read(RegisterCodes::R2), 0x1234);
    assert_eq!(
        registers.read(RegisterCodes::ConditionFlags),
        ConditionFlags::Positive.word()
    );
}

#[test]
fn store_register_writes_base_plus_offset() {
    let mut registers = fresh_registers();
    let mut memory = Memory::new();
    registers.write(RegisterCodes::R1, 0x4000);
    registers.write(RegisterCodes::R2, 0xBEEF);
    registers.perform_store_register(0x7441, &mut memory); // STR R2, R1, #1
    assert_eq!(memory.peek(0x4001), 0xBEEF);
}

#[test]
fn load_indirect_follows_pointer() {
    let mut registers = fresh_registers();
    let mut memory = Memory::new();
    let mut input = InputQueue::new();
    registers.set_program_counter(0x3001);
    memory.write(0x3003, 0x4000);
    memory.write(0x4000, 0x5678);
    registers.perform_load_indirect(0xA202, &mut memory, &mut input); // LDI R1, #2
    assert_eq!(registers.read(RegisterCodes::R1), 0x5678);
}

#[test]
fn store_indirect_follows_pointer() {
    let mut registers = fresh_registers();
    let mut memory = Memory::new();
    let mut input = InputQueue::new();
    registers.set_program_counter(0x3001);
    memory.write(0x3003, 0x4000);
    registers.write(RegisterCodes::R1, 0x9ABC);
    registers.perform_store_indirect(0xB202, &mut memory, &mut input); // STI R1, #2
    assert_eq!(memory.peek(0x4000), 0x9ABC);
}

#[test]
fn load_effective_address_stores_address() {
    let mut registers = fresh_registers();
    registers.set_program_counter(0x3001);
    registers.perform_load_effective_address(0xE002); // LEA R0, #2
    assert_eq!(registers.read(RegisterCodes::R0), 0x3003);
    assert_eq!(
        registers.read(RegisterCodes::ConditionFlags),
        ConditionFlags::Positive.word()
    );
}

#[test]
fn branch_taken_moves_pc_by_offset() {
    let mut registers = fresh_registers();
    registers.set_program_counter(0x3001);
    registers.perform_branch(0x0405); // BRz #5, Zero flag in force
    assert_eq!(registers.read(RegisterCodes::ProgramCounter), 0x3006);
}

#[test]
fn branch_backwards_offset_is_signed() {
    let mut registers = fresh_registers();
    registers.set_program_counter(0x3001);
    registers.perform_branch(0x05FF); // BRz #-1
    assert_eq!(registers.read(RegisterCodes::ProgramCounter), 0x3000);
}

#[test]
fn branch_not_taken_leaves_pc() {
    let mut registers = fresh_registers();
    registers.set_program_counter(0x3001);
    registers.perform_branch(0x0205); // BRp #5, but the Zero flag is in force
    assert_eq!(registers.read(RegisterCodes::ProgramCounter), 0x3001);
}

#[test]
fn increment_program_counter_wraps() {
    let mut registers = fresh_registers();
    registers.set_program_counter(0xFFFF);
    assert_eq!(registers.increment_program_counter(), 0x0000);
    assert_eq!(registers.read(RegisterCodes::ProgramCounter), 0x0000);
}

#[test]
fn sign_extend_small_fields() {
    assert_eq!(Registers::sign_extend(0x1F, 5), 0xFFFF); // -1 in 5 bits
    assert_eq!(Registers::sign_extend(0x0F, 5), 0x000F); // +15 in 5 bits
    assert_eq!(Registers::sign_extend(0x1FF, 9), 0xFFFF); // -1 in 9 bits
    assert_eq!(Registers::sign_extend(0x100, 9), 0xFF00); // -256 in 9 bits
}

#[test]
fn sign_extend_full_width_is_identity() {
    assert_eq!(Registers::sign_extend(0x8000, 16), 0x8000);
    assert_eq!(Registers::sign_extend(0xFFFF, 16), 0xFFFF);
    assert_eq!(Registers::sign_extend(0x1234, 16), 0x1234);
}

#[test]
fn sign_extend_re_extension_is_idempotent() {
    let once = Registers::sign_extend(0x1F, 5);
    assert_eq!(Registers::sign_extend(once, 16), once);
    let positive = Registers::sign_extend(0x0F, 5);
    assert_eq!(Registers::sign_extend(positive, 9), positive);
}

#[test]
fn opcode_decode_is_total_over_nibble() {
    assert_eq!(Opcodes::from(0), Some(Opcodes::Branch));
    assert_eq!(Opcodes::from(1), Some(Opcodes::Add));
    assert_eq!(Opcodes::from(8), Some(Opcodes::Unused));
    assert_eq!(Opcodes::from(13), Some(Opcodes::Reserved));
    assert_eq!(Opcodes::from(15), Some(Opcodes::ExecuteTrap));
    assert_eq!(Opcodes::from(16), None);
}

#[test]
fn register_code_decode() {
    assert_eq!(RegisterCodes::from(0), Some(RegisterCodes::R0));
    assert_eq!(RegisterCodes::from(8), Some(RegisterCodes::ProgramCounter));
    assert_eq!(RegisterCodes::from(9), Some(RegisterCodes::ConditionFlags));
    assert_eq!(RegisterCodes::from(10), Some(RegisterCodes::Count));
    assert_eq!(RegisterCodes::from(11), None);
}

#[test]
fn trap_code_decode() {
    assert_eq!(TrapCodes::from(0x20), Some(TrapCodes::GetCharacter));
    assert_eq!(TrapCodes::from(0x25), Some(TrapCodes::Halt));
    assert_eq!(TrapCodes::from(0x1F), None);
    assert_eq!(TrapCodes::from(0x26), None);
    assert_eq!(TrapCodes::from(0x99), None);
}
