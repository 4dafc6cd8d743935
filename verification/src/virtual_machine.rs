use vstd::prelude::*;

verus! {

use crate::condition_flags::ConditionFlags;
use crate::input::InputQueue;
use crate::instruction_set::{
    Opcodes, cond_field, dest_field, lemma_fields_bounded, long_flag, src1_field, trap_vector,
};
use crate::memory::{
    KEYBOARD_STATUS_ADDRESS, Memory, input_after_read, lemma_store_words_push, mem_after_read,
    read_result, store_words, zero_memory,
};
use crate::registers::{
    RegisterCodes, Registers, TrapOutcome, add_result, and_result, low_bytes_upto,
    packed_bytes_upto, prompt_bytes, sign_extend_spec, trap_effect, walk_ends_at, with_result,
};
use crate::word::{be_word, lemma_wrap_at_step, make_be_word, wrap_add, wrap_at, wrapping_add};

/// Whether the machine is still executing, was stopped by the HALT
/// service, or was stopped by a fault it reported.
#[derive(Clone, Copy, Debug, PartialEq, Eq, Structural)]
pub enum MachineState {
    Running,
    Halted,
    Faulted,
}

/// A fault that ends the run: an opcode outside the user-mode set, named
/// by its nibble, or a trap vector no service answers.
#[derive(Clone, Copy, Debug, PartialEq, Eq, Structural)]
pub enum Fault {
    UnsupportedOpcode(u16),
    UnknownTrapVector(u16),
}

/// Why a program image was rejected at startup. Loading is all or
/// nothing: a rejected image leaves no machine behind.
#[derive(Clone, Copy, Debug, PartialEq, Eq, Structural)]
pub enum LoadError {
    MissingOrigin,
    TruncatedWord,
}

/// What one executed cycle, or a bounded stretch of them, reports back.
#[derive(Clone, Copy, Debug, PartialEq, Eq, Structural)]
pub enum StepOutcome {
    Continue,
    NeedsInput,
    Halted,
    Faulted(Fault),
}

/// The whole machine: address space, register file, run state, pending
/// keyboard input, and the output stream gathered so far.
pub struct VirtualMachine {
    pub memory: Memory,
    pub registers: Registers,
    pub state: MachineState,
    pub input: InputQueue,
    pub output: Vec<u8>,
}

/// The 16-bit big-endian words of a program image.
pub open spec fn image_words(bytes: Seq<u8>) -> Seq<u16> {
    Seq::new((bytes.len() / 2) as nat, |i: int| be_word(bytes[2 * i], bytes[2 * i + 1]))
}

/// A loadable image: an origin word followed by a whole number of data
/// words.
pub open spec fn image_well_formed(bytes: Seq<u8>) -> bool {
    bytes.len() >= 2 && bytes.len() % 2 == 0
}

/// The `Result` a step reports: the fault it carries, or success.
pub open spec fn step_result(r: StepOutcome) -> Result<(), Fault> {
    match r {
        StepOutcome::Faulted(f) => Err(f),
        _ => Ok(()),
    }
}

/// The complete effect of executing one decoded instruction on the
/// machine. `op` is the opcode nibble the dispatcher acted on; `regs0`
/// through `out0` are the machine at the moment of execution, after the
/// fetch advanced the PC; `regs1` through `out1`, `state1` and `r` are
/// what it left behind.
pub open spec fn instruction_effect(
    op: u16,
    instruction: u16,
    regs0: Seq<u16>,
    mem0: Seq<u16>,
    in0: Seq<u8>,
    out0: Seq<u8>,
    regs1: Seq<u16>,
    mem1: Seq<u16>,
    in1: Seq<u8>,
    out1: Seq<u8>,
    state1: MachineState,
    r: Result<(), Fault>,
) -> bool {
    &&& (op == 0 ==> regs1 == (if cond_field(instruction) & regs0[9] != 0 {
        regs0.update(8, wrap_add(regs0[8], sign_extend_spec(instruction & 0x1FF, 9)))
    } else {
        regs0
    }) && mem1 == mem0 && in1 == in0 && out1 == out0 && state1 == MachineState::Running
        && r is Ok)
    &&& (op == 1 ==> regs1 == with_result(
        regs0,
        dest_field(instruction),
        add_result(regs0, instruction),
    ) && mem1 == mem0 && in1 == in0 && out1 == out0 && state1 == MachineState::Running
        && r is Ok)
    &&& (op == 2 ==> ({
        let address = wrap_add(regs0[8], sign_extend_spec(instruction & 0x1FF, 9));
        &&& regs1 == with_result(regs0, dest_field(instruction), read_result(mem0, in0, address))
        &&& mem1 == mem_after_read(mem0, in0, address)
        &&& in1 == input_after_read(in0, address)
    }) && out1 == out0 && state1 == MachineState::Running && r is Ok)
    &&& (op == 3 ==> mem1 == mem0.update(
        wrap_add(regs0[8], sign_extend_spec(instruction & 0x1FF, 9)) as int,
        regs0[dest_field(instruction)],
    ) && regs1 == regs0 && in1 == in0 && out1 == out0 && state1 == MachineState::Running
        && r is Ok)
    &&& (op == 4 ==> ({
        let saved = regs0.update(7, regs0[8]);
        let target = if long_flag(instruction) {
            wrap_add(regs0[8], sign_extend_spec(instruction & 0x7FF, 11))
        } else {
            saved[src1_field(instruction)]
        };
        regs1 == saved.update(8, target)
    }) && mem1 == mem0 && in1 == in0 && out1 == out0 && state1 == MachineState::Running
        && r is Ok)
    &&& (op == 5 ==> regs1 == with_result(
        regs0,
        dest_field(instruction),
        and_result(regs0, instruction),
    ) && mem1 == mem0 && in1 == in0 && out1 == out0 && state1 == MachineState::Running
        && r is Ok)
    &&& (op == 6 ==> ({
        let address = wrap_add(
            regs0[src1_field(instruction)],
            sign_extend_spec(instruction & 0x3F, 6),
        );
        &&& regs1 == with_result(regs0, dest_field(instruction), read_result(mem0, in0, address))
        &&& mem1 == mem_after_read(mem0, in0, address)
        &&& in1 == input_after_read(in0, address)
    }) && out1 == out0 && state1 == MachineState::Running && r is Ok)
    &&& (op == 7 ==> mem1 == mem0.update(
        wrap_add(regs0[src1_field(instruction)], sign_extend_spec(instruction & 0x3F, 6)) as int,
        regs0[dest_field(instruction)],
    ) && regs1 == regs0 && in1 == in0 && out1 == out0 && state1 == MachineState::Running
        && r is Ok)
    &&& (op == 8 ==> regs1 == regs0 && mem1 == mem0 && in1 == in0 && out1 == out0 && state1
        == MachineState::Faulted && r == Err::<(), Fault>(Fault::UnsupportedOpcode(8)))
    &&& (op == 9 ==> regs1 == with_result(
        regs0,
        dest_field(instruction),
        !regs0[src1_field(instruction)],
    ) && mem1 == mem0 && in1 == in0 && out1 == out0 && state1 == MachineState::Running
        && r is Ok)
    &&& (op == 10 ==> ({
        let pointer_address = wrap_add(regs0[8], sign_extend_spec(instruction & 0x1FF, 9));
        let mem_mid = mem_after_read(mem0, in0, pointer_address);
        let input_mid = input_after_read(in0, pointer_address);
        let target = read_result(mem0, in0, pointer_address);
        &&& regs1 == with_result(
            regs0,
            dest_field(instruction),
            read_result(mem_mid, input_mid, target),
        )
        &&& mem1 == mem_after_read(mem_mid, input_mid, target)
        &&& in1 == input_after_read(input_mid, target)
    }) && out1 == out0 && state1 == MachineState::Running && r is Ok)
    &&& (op == 11 ==> ({
        let pointer_address = wrap_add(regs0[8], sign_extend_spec(instruction & 0x1FF, 9));
        let mem_mid = mem_after_read(mem0, in0, pointer_address);
        let target = read_result(mem0, in0, pointer_address);
        &&& mem1 == mem_mid.update(target as int, regs0[dest_field(instruction)])
        &&& in1 == input_after_read(in0, pointer_address)
    }) && regs1 == regs0 && out1 == out0 && state1 == MachineState::Running && r is Ok)
    &&& (op == 12 ==> regs1 == regs0.update(8, regs0[src1_field(instruction)]) && mem1 == mem0
        && in1 == in0 && out1 == out0 && state1 == MachineState::Running && r is Ok)
    &&& (op == 13 ==> regs1 == regs0 && mem1 == mem0 && in1 == in0 && out1 == out0 && state1
        == MachineState::Faulted && r == Err::<(), Fault>(Fault::UnsupportedOpcode(13)))
    &&& (op == 14 ==> regs1 == with_result(
        regs0,
        dest_field(instruction),
        wrap_add(regs0[8], sign_extend_spec(instruction & 0x1FF, 9)),
    ) && mem1 == mem0 && in1 == in0 && out1 == out0 && state1 == MachineState::Running
        && r is Ok)
    &&& (op == 15 ==> ({
        let vector = trap_vector(instruction);
        &&& mem1 == mem0
        &&& trap_effect(
            regs0,
            mem0,
            in0,
            out0,
            instruction,
            regs1,
            in1,
            out1,
            if vector == 0x25 {
                TrapOutcome::Halt
            } else if 0x20 <= vector <= 0x24 {
                TrapOutcome::Continue
            } else {
                TrapOutcome::Unknown
            },
        )
        &&& state1 == (if vector == 0x25 {
            MachineState::Halted
        } else if 0x20 <= vector <= 0x24 {
            MachineState::Running
        } else {
            MachineState::Faulted
        })
        &&& r == (if !(0x20 <= vector <= 0x25) {
            Err::<(), Fault>(Fault::UnknownTrapVector(vector))
        } else {
            Ok::<(), Fault>(())
        })
    }))
}

/// Two machines that agree cell for cell: same memory, registers, run
/// state, pending input and output.
pub open spec fn same_machine(a: VirtualMachine, b: VirtualMachine) -> bool {
    &&& a.memory@ == b.memory@
    &&& a.registers.regs() == b.registers.regs()
    &&& a.state == b.state
    &&& a.input@ == b.input@
    &&& a.output@ == b.output@
}

/// One cycle of the machine relates `a` to `b` with outcome `r`: either
/// the cycle was held back for input and changed nothing, or the word at
/// the PC was fetched, the PC advanced, and the instruction took its full
/// effect.
pub open spec fn cycle_relation(a: VirtualMachine, b: VirtualMachine, r: StepOutcome) -> bool {
    &&& (r == StepOutcome::NeedsInput ==> same_machine(a, b) && a.awaiting_input())
    &&& (r != StepOutcome::NeedsInput ==> ({
        let instruction = read_result(a.memory@, a.input@, a.registers.pc());
        instruction_effect(
            instruction >> 12,
            instruction,
            a.registers.regs().update(8, wrap_add(a.registers.pc(), 1)),
            mem_after_read(a.memory@, a.input@, a.registers.pc()),
            input_after_read(a.input@, a.registers.pc()),
            a.output@,
            b.registers.regs(),
            b.memory@,
            b.input@,
            b.output@,
            b.state,
            step_result(r),
        )
    }))
    &&& (r == StepOutcome::Continue ==> b.state == MachineState::Running)
    &&& (r == StepOutcome::Halted ==> b.state == MachineState::Halted)
    &&& (r matches StepOutcome::Faulted(f) ==> b.state == MachineState::Faulted)
}

/// Machine `b` is what `n` completed cycles, none of which stopped or
/// stalled, leave of machine `a`.
pub open spec fn runs_to(a: VirtualMachine, b: VirtualMachine, n: nat) -> bool
    decreases n,
{
    if n == 0 {
        same_machine(a, b)
    } else {
        exists|mid: VirtualMachine|
            #[trigger] cycle_relation(a, mid, StepOutcome::Continue) && runs_to(
                mid,
                b,
                (n - 1) as nat,
            )
    }
}

/// The cycle relation reads only the machine's contents, so it carries
/// across machines that agree cell for cell.
proof fn lemma_cycle_relation_same(
    a1: VirtualMachine,
    a2: VirtualMachine,
    b: VirtualMachine,
    r: StepOutcome,
)
    requires
        same_machine(a1, a2),
        cycle_relation(a2, b, r),
    ensures
        cycle_relation(a1, b, r),
{
}

/// A completed cycle appended after `n` completed cycles makes `n + 1` of
/// them.
proof fn lemma_runs_to_extend(a: VirtualMachine, b: VirtualMachine, c: VirtualMachine, n: nat)
    requires
        runs_to(a, b, n),
        cycle_relation(b, c, StepOutcome::Continue),
    ensures
        runs_to(a, c, n + 1),
    decreases n,
{
    if n == 0 {
        lemma_cycle_relation_same(a, b, c, StepOutcome::Continue);
        assert(same_machine(c, c));
        assert(runs_to(c, c, 0));
    } else {
        let mid = choose|mid: VirtualMachine|
            #[trigger] cycle_relation(a, mid, StepOutcome::Continue) && runs_to(
                mid,
                b,
                (n - 1) as nat,
            );
        lemma_runs_to_extend(mid, b, c, (n - 1) as nat);
    }
}

/// A sequence is a prefix of itself.
proof fn lemma_prefix_self(a: Seq<u8>)
    ensures
        a.is_prefix_of(a),
{
    assert(a =~= a.subrange(0, a.len() as int));
}

/// A sequence is a prefix of itself followed by anything.
proof fn lemma_prefix_append(a: Seq<u8>, t: Seq<u8>)
    ensures
        a.is_prefix_of(a + t),
{
    assert(a =~= (a + t).subrange(0, a.len() as int));
}

/// Being a prefix carries across a longer extension.
proof fn lemma_prefix_transitive(a: Seq<u8>, b: Seq<u8>, c: Seq<u8>)
    requires
        a.is_prefix_of(b),
        b.is_prefix_of(c),
    ensures
        a.is_prefix_of(c),
{
    assert forall|i: int| 0 <= i < a.len() implies a[i] == c.subrange(0, a.len() as int)[i] by {
        assert(a[i] == b.subrange(0, a.len() as int)[i]);
        assert(b[i] == c.subrange(0, b.len() as int)[i]);
    }
    assert(a =~= c.subrange(0, a.len() as int));
}

impl VirtualMachine {
    /// The machine is well formed: full address space, ten register
    /// slots, exactly one condition flag in force.
    pub open spec fn wf(self) -> bool {
        self.memory.wf() && self.registers.wf()
    }

    /// The machine is stopped waiting for the outside world: the next
    /// instruction is an input-reading trap and no byte is pending.
    pub open spec fn awaiting_input(self) -> bool {
        let instruction = read_result(self.memory@, self.input@, self.registers.pc());
        &&& self.input@.len() == 0
        &&& instruction >> 12 == 15
        &&& (trap_vector(instruction) == 0x20 || trap_vector(instruction) == 0x23)
    }

    /// Build the machine from a program image: zeroed memory overlaid
    /// with the image's data words starting at the origin its first word
    /// names, PC at 0x3000, the Zero flag set, no input pending and no
    /// output produced. A short or odd-length image is rejected whole.
    #[verifier::loop_isolation(false)]
    pub fn initial_setup(image: &Vec<u8>) -> (r: Result<VirtualMachine, LoadError>)
        ensures
            image@.len() < 2 ==> r == Err::<VirtualMachine, LoadError>(LoadError::MissingOrigin),
            image@.len() >= 2 && image@.len() % 2 != 0 ==> r == Err::<VirtualMachine, LoadError>(
                LoadError::TruncatedWord,
            ),
            image_well_formed(image@) ==> (r matches Ok(vm) && {
                &&& vm.wf()
                &&& vm.memory@ == store_words(
                    zero_memory(),
                    image_words(image@)[0],
                    image_words(image@).drop_first(),
                )
                &&& vm.registers.pc() == 0x3000
                &&& vm.registers.cond() == ConditionFlags::Zero.spec_word()
                &&& forall|i: int| 0 <= i < 8 ==> vm.registers.reg(i) == 0
                &&& vm.state == MachineState::Running
                &&& vm.input@ == Seq::<u8>::empty()
                &&& vm.output@ == Seq::<u8>::empty()
            }),
    {
        if image.len() < 2 {
            return Err(LoadError::MissingOrigin);
        }
        if image.len() % 2 != 0 {
            return Err(LoadError::TruncatedWord);
        }
        let mut memory = Memory::new();
        let origin = make_be_word(image[0], image[1]);
        let word_count = image.len() / 2;
        let mut index: usize = 1;
        let mut address: u16 = origin;
        proof {
            vstd::arithmetic::div_mod::lemma_small_mod(origin as nat, 0x10000nat);
            vstd::arithmetic::div_mod::lemma_fundamental_div_mod(image@.len() as int, 2);
            assert(image_words(image@).subrange(1, 1) =~= Seq::<u16>::empty());
        }
        while index < word_count
            invariant
                memory.wf(),
                1 <= index <= word_count,
                address == wrap_at(origin, index - 1),
                memory@ == store_words(
                    zero_memory(),
                    origin,
                    image_words(image@).subrange(1, index as int),
                ),
            decreases word_count - index,
        {
            let word = make_be_word(image[2 * index], image[2 * index + 1]);
            memory.write(address, word);
            proof {
                let words = image_words(image@);
                assert(words[index as int] == word);
                assert(words.subrange(1, index + 1) =~= words.subrange(1, index as int).push(
                    words[index as int],
                ));
                lemma_store_words_push(
                    zero_memory(),
                    origin,
                    words.subrange(1, index as int),
                    word,
                );
                lemma_wrap_at_step(origin, index - 1);
            }
            address = wrapping_add(address, 1);
            index = index + 1;
        }
        proof {
            assert(image_words(image@).subrange(1, word_count as int) =~= image_words(
                image@,
            ).drop_first());
        }
        let mut registers = Registers::new();
        registers.set_condition_flag(ConditionFlags::Zero);
        registers.set_program_counter(0x3000);
        Ok(
            VirtualMachine {
                memory,
                registers,
                state: MachineState::Running,
                input: InputQueue::new(),
                output: Vec::new(),
            },
        )
    }

    /// Dispatch one decoded instruction to its execution routine. The
    /// trap services that read the keyboard must find a byte pending;
    /// the cycle loop holds back such an instruction until one is.
    pub fn perform_instruction(&mut self, opcode: Opcodes, instruction: u16) -> (r: Result<
        (),
        Fault,
    >)
        requires
            old(self).wf(),
            old(self).state == MachineState::Running,
            opcode.code() == 15 && (trap_vector(instruction) == 0x20 || trap_vector(instruction)
                == 0x23) ==> old(self).input@.len() > 0,
        ensures
            final(self).wf(),
            instruction_effect(
                opcode.code(),
                instruction,
                old(self).registers.regs(),
                old(self).memory@,
                old(self).input@,
                old(self).output@,
                final(self).registers.regs(),
                final(self).memory@,
                final(self).input@,
                final(self).output@,
                final(self).state,
                r,
            ),
            old(self).output@.is_prefix_of(final(self).output@),
            r is Ok ==> final(self).state == MachineState::Running || final(self).state
                == MachineState::Halted,
            r is Err ==> final(self).state == MachineState::Faulted,
    {
        proof {
            lemma_fields_bounded(instruction);
        }
        let result: Result<(), Fault> = match opcode {
            Opcodes::Branch => {
                self.registers.perform_branch(instruction);
                Ok(())
            },
            Opcodes::Add => {
                self.registers.perform_add(instruction);
                Ok(())
            },
            Opcodes::Load => {
                self.registers.perform_load(instruction, &mut self.memory, &mut self.input);
                Ok(())
            },
            Opcodes::Store => {
                self.registers.perform_store(instruction, &mut self.memory);
                Ok(())
            },
            Opcodes::JumpRegister => {
                self.registers.perform_jump_register(instruction);
                Ok(())
            },
            Opcodes::BitwiseAnd => {
                self.registers.perform_bitwise_and(instruction);
                Ok(())
            },
            Opcodes::LoadRegister => {
                self.registers.perform_load_register(
                    instruction,
                    &mut self.memory,
                    &mut self.input,
                );
                Ok(())
            },
            Opcodes::StoreRegister => {
                self.registers.perform_store_register(instruction, &mut self.memory);
                Ok(())
            },
            Opcodes::Unused => {
                self.registers.perform_unused();
                self.state = MachineState::Faulted;
                Err(Fault::UnsupportedOpcode(8))
            },
            Opcodes::Not => {
                self.registers.perform_not(instruction);
                Ok(())
            },
            Opcodes::LoadIndirect => {
                self.registers.perform_load_indirect(
                    instruction,
                    &mut self.memory,
                    &mut self.input,
                );
                Ok(())
            },
            Opcodes::StoreIndirect => {
                self.registers.perform_store_indirect(
                    instruction,
                    &mut self.memory,
                    &mut self.input,
                );
                Ok(())
            },
            Opcodes::Jump => {
                self.registers.perform_jump(instruction);
                Ok(())
            },
            Opcodes::Reserved => {
                self.registers.perform_reserved();
                self.state = MachineState::Faulted;
                Err(Fault::UnsupportedOpcode(13))
            },
            Opcodes::LoadEffectiveAddress => {
                self.registers.perform_load_effective_address(instruction);
                Ok(())
            },
            Opcodes::ExecuteTrap => {
                match self.registers.perform_execute_trap(
                    instruction,
                    &self.memory,
                    &mut self.input,
                    &mut self.output,
                ) {
                    TrapOutcome::Continue => Ok(()),
                    TrapOutcome::Halt => {
                        self.state = MachineState::Halted;
                        Ok(())
                    },
                    TrapOutcome::Unknown => {
                        self.state = MachineState::Faulted;
                        Err(Fault::UnknownTrapVector(instruction & 0xFF))
                    },
                }
            },
        };
        proof {
            let out0 = old(self).output@;
            if opcode.code() == 15 {
                let v = trap_vector(instruction);
                let r0 = old(self).registers.reg(0);
                if v == 0x21 {
                    assert(out0.push((r0 & 0xFF) as u8) =~= out0 + seq![(r0 & 0xFF) as u8]);
                    lemma_prefix_append(out0, seq![(r0 & 0xFF) as u8]);
                } else if v == 0x22 {
                    let k = choose|k: nat|
                        #[trigger] walk_ends_at(old(self).memory@, r0, k) && self.output@ == out0
                            + low_bytes_upto(old(self).memory@, r0, k);
                    lemma_prefix_append(out0, low_bytes_upto(old(self).memory@, r0, k));
                } else if v == 0x23 {
                    let echoed = old(self).input@[0];
                    assert(out0 + prompt_bytes() + seq![echoed] =~= out0 + (prompt_bytes()
                        + seq![echoed]));
                    lemma_prefix_append(out0, prompt_bytes() + seq![echoed]);
                } else if v == 0x24 {
                    let k = choose|k: nat|
                        #[trigger] walk_ends_at(old(self).memory@, r0, k) && self.output@ == out0
                            + packed_bytes_upto(old(self).memory@, r0, k);
                    lemma_prefix_append(out0, packed_bytes_upto(old(self).memory@, r0, k));
                } else {
                    lemma_prefix_self(out0);
                }
            } else {
                lemma_prefix_self(out0);
            }
        }
        result
    }

    /// One fetch-decode-execute cycle: fetch the word at the current PC
    /// through the device-aware read, advance the PC, decode the top
    /// nibble, and execute. When the fetched instruction is an
    /// input-reading trap and no byte is pending, the cycle reports that
    /// it needs input and leaves the machine exactly as it was, rather
    /// than block.
    pub fn step(&mut self) -> (r: StepOutcome)
        requires
            old(self).wf(),
            old(self).state == MachineState::Running,
        ensures
            final(self).wf(),
            old(self).output@.is_prefix_of(final(self).output@),
            cycle_relation(*old(self), *final(self), r),
    {
        let fetch_address = self.registers.read(RegisterCodes::ProgramCounter);
        let instruction = self.memory.read(fetch_address, &mut self.input);
        let opcode_value = instruction >> 12;
        proof {
            lemma_fields_bounded(instruction);
        }
        let opcode = Opcodes::from(opcode_value).unwrap();

        if matches!(opcode, Opcodes::ExecuteTrap) {
            let vector = instruction & 0xFF;
            if (vector == 0x20 || vector == 0x23) && self.input.is_empty() {
                proof {
                    if fetch_address == KEYBOARD_STATUS_ADDRESS {
                        assert(0x8000u16 >> 12 == 8) by (bit_vector);
                        assert(0u16 >> 12 == 0) by (bit_vector);
                        assert(false);
                    }
                    lemma_prefix_self(old(self).output@);
                }
                return StepOutcome::NeedsInput;
            }
        }
        self.registers.increment_program_counter();
        let result = self.perform_instruction(opcode, instruction);
        match result {
            Ok(_) => {
                if matches!(self.state, MachineState::Halted) {
                    StepOutcome::Halted
                } else {
                    StepOutcome::Continue
                }
            },
            Err(fault) => StepOutcome::Faulted(fault),
        }
    }

    /// Drive the cycle loop for at most `max_cycles` cycles. The loop
    /// leaves early when the machine halts, faults, or needs input that
    /// has not arrived — within the budget, never past it — and a
    /// Continue return means the whole budget was spent on completed
    /// cycles. Whoever drives the machine may push input, or grant more
    /// cycles, and call again, so the run as a whole goes on until the
    /// machine is halted.
    #[verifier::loop_isolation(false)]
    pub fn run(&mut self, max_cycles: usize) -> (r: StepOutcome)
        requires
            old(self).wf(),
            old(self).state == MachineState::Running,
        ensures
            final(self).wf(),
            old(self).output@.is_prefix_of(final(self).output@),
            r == StepOutcome::Continue ==> final(self).state == MachineState::Running
                && runs_to(*old(self), *final(self), max_cycles as nat),
            r != StepOutcome::Continue ==> (exists|before: VirtualMachine, n: nat|
                #[trigger] runs_to(*old(self), before, n) && n < max_cycles && cycle_relation(
                    before,
                    *final(self),
                    r,
                )),
            r == StepOutcome::NeedsInput ==> final(self).state == MachineState::Running
                && final(self).awaiting_input(),
            r == StepOutcome::Halted ==> final(self).state == MachineState::Halted,
            r matches StepOutcome::Faulted(f) ==> final(self).state == MachineState::Faulted,
    {
        let mut cycles: usize = 0;
        proof {
            lemma_prefix_self(old(self).output@);
            assert(same_machine(*old(self), *self));
            assert(runs_to(*old(self), *self, 0));
        }
        while cycles < max_cycles
            invariant
                self.wf(),
                self.state == MachineState::Running,
                cycles <= max_cycles,
                old(self).output@.is_prefix_of(self.output@),
                runs_to(*old(self), *self, cycles as nat),
            decreases max_cycles - cycles,
        {
            let ghost out_before = self.output@;
            let ghost before = *self;
            let outcome = self.step();
            proof {
                lemma_prefix_transitive(old(self).output@, out_before, self.output@);
            }
            match outcome {
                StepOutcome::Continue => {
                    proof {
                        lemma_runs_to_extend(*old(self), before, *self, cycles as nat);
                    }
                },
                _ => {
                    proof {
                        assert(runs_to(*old(self), before, cycles as nat) && cycle_relation(
                            before,
                            *self,
                            outcome,
                        ));
                    }
                    return outcome;
                },
            }
            cycles = cycles + 1;
        }
        StepOutcome::Continue
    }
}

/// An instruction that neither branches, jumps nor traps leaves the PC
/// exactly where the fetch put it: one past the fetch address, modulo
/// 2^16. A fetch at 0xFFFF therefore continues at 0x0000 instead of
/// faulting on overflow.
pub proof fn lemma_program_counter_wraps(
    op: u16,
    instruction: u16,
    regs0: Seq<u16>,
    mem0: Seq<u16>,
    in0: Seq<u8>,
    out0: Seq<u8>,
    regs1: Seq<u16>,
    mem1: Seq<u16>,
    in1: Seq<u8>,
    out1: Seq<u8>,
    state1: MachineState,
    r: Result<(), Fault>,
)
    requires
        regs0.len() == 10,
        op == 1 || op == 2 || op == 3 || op == 5 || op == 6 || op == 7 || op == 9 || op == 10
            || op == 11 || op == 14,
        instruction_effect(
            op,
            instruction,
            regs0,
            mem0,
            in0,
            out0,
            regs1,
            mem1,
            in1,
            out1,
            state1,
            r,
        ),
    ensures
        regs1[8] == regs0[8],
        wrap_add(0xFFFF, 1) == 0,
{
    lemma_fields_bounded(instruction);
}

} // verus!
