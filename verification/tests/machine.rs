use lc3_vm::condition_flags::ConditionFlags;
use lc3_vm::registers::RegisterCodes;
use lc3_vm::virtual_machine::{Fault, LoadError, MachineState, StepOutcome, VirtualMachine};

fn image_from_words(origin: u16, words: &[u16]) -> Vec<u8> {
    let mut bytes = Vec::new();
    bytes.push((origin >> 8) as u8);
    bytes.push((origin & 0xFF) as u8);
    for w in words {
        bytes.push((w >> 8) as u8);
        bytes.push((w & 0xFF) as u8);
    }
    bytes
}

fn machine_with(words: &[u16]) -> VirtualMachine {
    let image = image_from_words(0x3000, words);
    VirtualMachine::initial_setup(&image).expect("image must load")
}

#[test]
fn load_missing_origin() {
    assert!(matches!(
        VirtualMachine::initial_setup(&Vec::new()),
        Err(LoadError::MissingOrigin)
    ));
    assert!(matches!(
        VirtualMachine::initial_setup(&vec![0x30]),
        Err(LoadError::MissingOrigin)
    ));
}

#[test]
fn load_truncated_word() {
    assert!(matches!(
        VirtualMachine::initial_setup(&vec![0x30, 0x00, 0x12]),
        Err(LoadError::TruncatedWord)
    ));
}

#[test]
fn load_round_trip_single_word() {
    let mut vm = machine_with(&[0x1234]);
    assert_eq!(vm.memory.read(0x3000, &mut vm.input), 0x1234);
    assert_eq!(vm.memory.peek(0x3000), 0x1234);
}

#[test]
fn load_initial_state() {
    let vm = machine_with(&[0x1234]);
    assert_eq!(vm.registers.read(RegisterCodes::ProgramCounter), 0x3000);
    assert_eq!(
        vm.registers.read(RegisterCodes::ConditionFlags),
        ConditionFlags::Zero.word()
    );
    assert_eq!(vm.registers.read(RegisterCodes::R0), 0);
    assert_eq!(vm.state, MachineState::Running);
    assert!(vm.output.is_empty());
}

#[test]
fn load_wraps_past_address_space() {
    let image = image_from_words(0xFFFF, &[0x1111, 0x2222]);
    let vm = VirtualMachine::initial_setup(&image).expect("image must load");
    assert_eq!(vm.memory.peek(0xFFFF), 0x1111);
    assert_eq!(vm.memory.peek(0x0000), 0x2222);
}

#[test]
fn program_counter_wraps_without_fault() {
    // an ADD placed at the top of the address space: executing it leaves
    // the PC at 0x0000, not an overflow fault
    let mut vm = machine_with(&[]);
    vm.memory.write(0xFFFF, 0x1025); // ADD R0, R0, #5
    vm.registers.set_program_counter(0xFFFF);
    assert_eq!(vm.step(), StepOutcome::Continue);
    assert_eq!(vm.registers.read(RegisterCodes::ProgramCounter), 0x0000);
    assert_eq!(vm.registers.read(RegisterCodes::R0), 5);
}

#[test]
fn add_then_halt() {
    // ADD R0, R0, #5 ; TRAP 0x25
    let mut vm = machine_with(&[0x1025, 0xF025]);
    assert_eq!(vm.run(1000), StepOutcome::Halted);
    assert_eq!(vm.registers.read(RegisterCodes::R0), 5);
    assert_eq!(
        vm.registers.read(RegisterCodes::ConditionFlags),
        ConditionFlags::Positive.word()
    );
    assert_eq!(vm.state, MachineState::Halted);
}

#[test]
fn puts_prints_null_terminated_string() {
    // LEA R0, #2 ; TRAP 0x22 ; TRAP 0x25 ; "HI\0" one character a word
    let mut vm = machine_with(&[0xE002, 0xF022, 0xF025, 0x0048, 0x0049, 0x0000]);
    assert_eq!(vm.run(1000), StepOutcome::Halted);
    assert_eq!(vm.output, b"HI".to_vec());
    assert_eq!(vm.state, MachineState::Halted);
}

#[test]
fn unknown_trap_vector_faults() {
    let mut vm = machine_with(&[0xF099]);
    assert_eq!(
        vm.run(1000),
        StepOutcome::Faulted(Fault::UnknownTrapVector(0x99))
    );
    assert_eq!(vm.state, MachineState::Faulted);
    assert!(vm.output.is_empty());
}

#[test]
fn fault_after_output_keeps_output_intact() {
    // LEA R0, #3 ; TRAP 0x22 ; TRAP 0x99 ; never reached ; "HI\0"
    let mut vm = machine_with(&[0xE003, 0xF022, 0xF099, 0xF025, 0x0048, 0x0049, 0x0000]);
    assert_eq!(
        vm.run(1000),
        StepOutcome::Faulted(Fault::UnknownTrapVector(0x99))
    );
    assert_eq!(vm.state, MachineState::Faulted);
    assert_eq!(vm.output, b"HI".to_vec());
}

#[test]
fn rti_in_user_mode_faults() {
    let mut vm = machine_with(&[0x8000]);
    assert_eq!(
        vm.run(1000),
        StepOutcome::Faulted(Fault::UnsupportedOpcode(8))
    );
    assert_eq!(vm.state, MachineState::Faulted);
}

#[test]
fn reserved_opcode_faults() {
    let mut vm = machine_with(&[0xD000]);
    assert_eq!(
        vm.run(1000),
        StepOutcome::Faulted(Fault::UnsupportedOpcode(13))
    );
    assert_eq!(vm.state, MachineState::Faulted);
}

#[test]
fn branch_taken_skips_instruction() {
    // BRz #1 skips the ADD when the Zero flag is in force at startup
    let mut vm = machine_with(&[0x0401, 0x1025, 0xF025]);
    assert_eq!(vm.run(1000), StepOutcome::Halted);
    assert_eq!(vm.registers.read(RegisterCodes::R0), 0);
}

#[test]
fn branch_not_taken_falls_through() {
    // BRp #1 is not taken under the Zero flag, so the ADD runs
    let mut vm = machine_with(&[0x0201, 0x1025, 0xF025]);
    assert_eq!(vm.run(1000), StepOutcome::Halted);
    assert_eq!(vm.registers.read(RegisterCodes::R0), 5);
}

#[test]
fn getc_waits_for_input_then_reads() {
    // TRAP 0x20 ; TRAP 0x25
    let mut vm = machine_with(&[0xF020, 0xF025]);
    assert_eq!(vm.run(1000), StepOutcome::NeedsInput);
    assert_eq!(vm.state, MachineState::Running);
    assert_eq!(vm.registers.read(RegisterCodes::ProgramCounter), 0x3000);
    vm.input.push(0x61);
    assert_eq!(vm.run(1000), StepOutcome::Halted);
    assert_eq!(vm.registers.read(RegisterCodes::R0), 0x61);
    // GETC does not echo
    assert!(vm.output.is_empty());
}

#[test]
fn out_prints_low_byte_of_r0() {
    // TRAP 0x21 ; TRAP 0x25
    let mut vm = machine_with(&[0xF021, 0xF025]);
    vm.registers.write(RegisterCodes::R0, 0x1241);
    assert_eq!(vm.run(1000), StepOutcome::Halted);
    assert_eq!(vm.output, b"A".to_vec());
}

#[test]
fn in_prompts_echoes_and_stores() {
    // TRAP 0x23 ; TRAP 0x25
    let mut vm = machine_with(&[0xF023, 0xF025]);
    vm.input.push(b'x');
    assert_eq!(vm.run(1000), StepOutcome::Halted);
    assert_eq!(vm.output, b"Enter a character: x".to_vec());
    assert_eq!(vm.registers.read(RegisterCodes::R0), b'x' as u16);
}

#[test]
fn putsp_prints_packed_pairs() {
    // LEA R0, #2 ; TRAP 0x24 ; TRAP 0x25 ; "HI" packed, then "A", then 0
    let mut vm = machine_with(&[0xE002, 0xF024, 0xF025, 0x4948, 0x0041, 0x0000]);
    assert_eq!(vm.run(1000), StepOutcome::Halted);
    assert_eq!(vm.output, b"HIA".to_vec());
}

#[test]
fn trap_saves_return_address_in_r7() {
    let mut vm = machine_with(&[0xF025]);
    assert_eq!(vm.run(1000), StepOutcome::Halted);
    assert_eq!(vm.registers.read(RegisterCodes::R7), 0x3001);
}

#[test]
fn run_with_exhausted_budget_continues() {
    // BRnzp #-1 loops in place forever; the budget runs out first
    let mut vm = machine_with(&[0x0FFF]);
    assert_eq!(vm.run(100), StepOutcome::Continue);
    assert_eq!(vm.state, MachineState::Running);
}
