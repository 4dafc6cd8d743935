use vstd::prelude::*;

verus! {

use crate::condition_flags::{
    ConditionFlags, flag_valid, flag_word_of, lemma_flag_classification,
};
use crate::input::InputQueue;
use crate::instruction_set::{
    cond_field, dest_field, imm_mode, lemma_fields_bounded, long_flag, src1_field, src2_field,
    trap_vector,
};
use crate::memory::{MEMORY_SIZE, Memory, input_after_read, mem_after_read, read_result};
use crate::word::{lemma_wrap_at_step, wrap_add, wrap_at, wrapping_add};

/// The register file: R0-R7, the program counter, and the condition
/// register, ten 16-bit slots in all.
pub struct Registers {
    container: Vec<u16>,
}

/// Names for the ten register slots, plus a count marker.
#[derive(Clone, Copy, Debug, PartialEq, Eq, Structural)]
pub enum RegisterCodes {
    R0,
    R1,
    R2,
    R3,
    R4,
    R5,
    R6,
    R7,
    ProgramCounter, // PC
    ConditionFlags, // COND
    Count,
}

impl RegisterCodes {
    /// The slot this name designates.
    pub open spec fn index(self) -> int {
        match self {
            RegisterCodes::R0 => 0,
            RegisterCodes::R1 => 1,
            RegisterCodes::R2 => 2,
            RegisterCodes::R3 => 3,
            RegisterCodes::R4 => 4,
            RegisterCodes::R5 => 5,
            RegisterCodes::R6 => 6,
            RegisterCodes::R7 => 7,
            RegisterCodes::ProgramCounter => 8,
            RegisterCodes::ConditionFlags => 9,
            RegisterCodes::Count => 10,
        }
    }

    /// Decode a register number: every value up to the count marker names
    /// a code, and nothing larger does.
    pub fn from(value: u16) -> (r: Option<RegisterCodes>)
        ensures
            value <= 10 ==> (r matches Some(c) && c.index() == value),
            value > 10 ==> r is None,
    {
        match value {
            0 => Some(RegisterCodes::R0),
            1 => Some(RegisterCodes::R1),
            2 => Some(RegisterCodes::R2),
            3 => Some(RegisterCodes::R3),
            4 => Some(RegisterCodes::R4),
            5 => Some(RegisterCodes::R5),
            6 => Some(RegisterCodes::R6),
            7 => Some(RegisterCodes::R7),
            8 => Some(RegisterCodes::ProgramCounter),
            9 => Some(RegisterCodes::ConditionFlags),
            10 => Some(RegisterCodes::Count),
            _ => None,
        }
    }

    /// Executable form of `index`.
    fn idx(self) -> (r: usize)
        ensures
            r == self.index(),
    {
        match self {
            RegisterCodes::R0 => 0,
            RegisterCodes::R1 => 1,
            RegisterCodes::R2 => 2,
            RegisterCodes::R3 => 3,
            RegisterCodes::R4 => 4,
            RegisterCodes::R5 => 5,
            RegisterCodes::R6 => 6,
            RegisterCodes::R7 => 7,
            RegisterCodes::ProgramCounter => 8,
            RegisterCodes::ConditionFlags => 9,
            RegisterCodes::Count => 10,
        }
    }
}

impl Registers {
    /// The ten register slots as a sequence: R0-R7, then PC, then COND.
    pub closed spec fn regs(self) -> Seq<u16> {
        self.container@
    }

    /// The value of slot `i`.
    pub open spec fn reg(self, i: int) -> u16 {
        self.regs()[i]
    }

    /// The program counter.
    pub open spec fn pc(self) -> u16 {
        self.reg(8)
    }

    /// The condition register.
    pub open spec fn cond(self) -> u16 {
        self.reg(9)
    }

    /// The register file has its ten slots.
    pub open spec fn well_sized(self) -> bool {
        self.regs().len() == 10
    }

    /// Well-formed: ten slots, and the condition register holds exactly
    /// one flag.
    pub open spec fn wf(self) -> bool {
        self.well_sized() && flag_valid(self.cond())
    }

    /// A fresh register file, all slots zero. The condition register is
    /// not yet well formed; startup sets the Zero flag.
    pub fn new() -> (r: Registers)
        ensures
            r.well_sized(),
            r.regs() == Seq::new(10, |i: int| 0u16),
    {
        let mut container: Vec<u16> = Vec::new();
        while container.len() < 10
            invariant
                container@.len() <= 10,
                forall|i: int| 0 <= i < container@.len() ==> container@[i] == 0u16,
            decreases 10 - container@.len(),
        {
            container.push(0);
        }
        proof {
            assert(container@ =~= Seq::new(10, |i: int| 0u16));
        }
        Registers { container }
    }

    /// Overwrite the condition register with the given flag.
    pub fn set_condition_flag(&mut self, condition_flag: ConditionFlags)
        requires
            old(self).well_sized(),
        ensures
            final(self).wf(),
            final(self).regs() == old(self).regs().update(9, condition_flag.spec_word()),
    {
        self.write(RegisterCodes::ConditionFlags, condition_flag.word())
    }

    /// Point the program counter at `value`.
    pub fn set_program_counter(&mut self, value: u16)
        requires
            old(self).well_sized(),
        ensures
            final(self).regs() == old(self).regs().update(8, value),
            old(self).wf() ==> final(self).wf(),
    {
        self.write(RegisterCodes::ProgramCounter, value)
    }

    /// Advance the program counter by one cell, wrapping modulo 2^16, and
    /// return the new value.
    pub fn increment_program_counter(&mut self) -> (r: u16)
        requires
            old(self).well_sized(),
        ensures
            r == wrap_add(old(self).pc(), 1),
            final(self).regs() == old(self).regs().update(8, wrap_add(old(self).pc(), 1)),
            old(self).wf() ==> final(self).wf(),
    {
        let new_value = wrapping_add(self.read(RegisterCodes::ProgramCounter), 1);
        self.write(RegisterCodes::ProgramCounter, new_value);
        new_value
    }

    /// Store `value` in the named slot.
    pub fn write(&mut self, address: RegisterCodes, value: u16)
        requires
            old(self).well_sized(),
            address.index() < 10,
        ensures
            final(self).well_sized(),
            final(self).regs() == old(self).regs().update(address.index(), value),
    {
        let i = address.idx();
        self.container.set(i, value);
    }

    /// The value of the named slot.
    pub fn read(&self, address: RegisterCodes) -> (r: u16)
        requires
            self.well_sized(),
            address.index() < 10,
        ensures
            r == self.reg(address.index()),
    {
        let i = address.idx();
        self.container[i]
    }

    /// Recompute the condition register from the value the named register
    /// now holds: Zero for zero, Negative when bit 15 is set, Positive
    /// otherwise.
    fn update_flags(&mut self, code: RegisterCodes)
        requires
            old(self).well_sized(),
            0 <= code.index() < 10,
        ensures
            final(self).wf(),
            final(self).regs() == old(self).regs().update(
                9,
                flag_word_of(old(self).reg(code.index())),
            ),
    {
        let register = self.read(code);
        proof {
            assert(register >= 0x8000 <==> register >> 15 != 0) by (bit_vector);
        }
        if register == 0 {
            self.set_condition_flag(ConditionFlags::Zero);
            return ;
        }
        if (register >> 15) != 0 {
            self.set_condition_flag(ConditionFlags::Negative);
            return ;
        }
        self.set_condition_flag(ConditionFlags::Positive);
    }

    /// Sign-extend the low `bit_count` bits of `value` to a full 16-bit
    /// two's-complement word by replicating bit `bit_count - 1` upward.
    pub fn sign_extend(value: u16, bit_count: u16) -> (r: u16)
        requires
            1 <= bit_count <= 16,
        ensures
            r == sign_extend_spec(value, bit_count),
    {
        proof {
            let ghost shifted = value >> (bit_count - 1) as u16;
            assert(shifted & 1 != 0 <==> shifted & 1 == 1) by (bit_vector);
            assert(value | (0xFFFFu16 << 16u16) == value) by (bit_vector);
        }
        if bit_count < 16 {
            if ((value >> (bit_count - 1)) & 1) != 0 {
                value | (0xFFFFu16 << bit_count)
            } else {
                value
            }
        } else {
            value
        }
    }
}

/// Sign extension of the low `bit_count` bits of a word: if the field's
/// top bit is set, every bit above it becomes one; otherwise the word is
/// returned as it came.
pub open spec fn sign_extend_spec(value: u16, bit_count: u16) -> u16 {
    if (value >> (bit_count - 1) as u16) & 1 == 1 {
        value | (0xFFFFu16 << bit_count)
    } else {
        value
    }
}

/// Sign extension is idempotent under re-extension at the same or any
/// larger width, for any value that fits its field.
pub proof fn lemma_sign_extend_idempotent(value: u16, first: u16, second: u16)
    requires
        1 <= first <= second <= 16,
        value >> first == 0,
    ensures
        sign_extend_spec(sign_extend_spec(value, first), second) == sign_extend_spec(
            value,
            first,
        ),
{
    assert(sign_extend_spec(sign_extend_spec(value, first), second) == sign_extend_spec(
        value,
        first,
    )) by (bit_vector)
        requires
            1 <= first <= second <= 16,
            value >> first == 0,
    ;
}

/// Extending an already-16-bit value at the full width returns it
/// unchanged; in particular a negative word stays itself.
pub proof fn lemma_sign_extend_full_width(value: u16)
    ensures
        sign_extend_spec(value, 16) == value,
{
    assert(sign_extend_spec(value, 16) == value) by (bit_vector);
}

/// The register file after writing `value` to slot `dest` and refreshing
/// the condition register from that value.
pub open spec fn with_result(regs: Seq<u16>, dest: int, value: u16) -> Seq<u16> {
    regs.update(dest, value).update(9, flag_word_of(value))
}

/// After any routine that writes a destination register and refreshes the
/// flags — ADD, AND, NOT, LD, LDR, LDI and LEA all leave the register
/// file in `with_result` form — the condition register is one-hot,
/// holding exactly one of Positive, Zero and Negative, and it matches the
/// zero-ness and the sign bit of the value the destination now holds; no
/// slot other than the destination and the condition register changes.
pub proof fn lemma_with_result_flags(regs: Seq<u16>, dest: int, value: u16)
    requires
        regs.len() == 10,
        0 <= dest < 8,
    ensures
        ({
            let regs1 = with_result(regs, dest, value);
            &&& regs1.len() == 10
            &&& regs1[dest] == value
            &&& flag_valid(regs1[9])
            &&& regs1[9] == (if value == 0 {
                2u16
            } else if value & 0x8000 != 0 {
                4u16
            } else {
                1u16
            })
            &&& forall|i: int| 0 <= i < 10 && i != dest && i != 9 ==> regs1[i] == regs[i]
        }),
{
    lemma_flag_classification(value);
    assert(value & 0x8000 != 0 <==> value >= 0x8000) by (bit_vector);
}

/// The value ADD writes: SR1 plus either SR2 or the sign-extended 5-bit
/// immediate, wrapping modulo 2^16.
pub open spec fn add_result(regs: Seq<u16>, instruction: u16) -> u16 {
    let first = regs[src1_field(instruction)];
    if imm_mode(instruction) {
        wrap_add(first, sign_extend_spec(instruction & 0x1F, 5))
    } else {
        wrap_add(first, regs[src2_field(instruction)])
    }
}

/// The value AND writes: bitwise conjunction of SR1 with SR2 or with the
/// sign-extended 5-bit immediate.
pub open spec fn and_result(regs: Seq<u16>, instruction: u16) -> u16 {
    let first = regs[src1_field(instruction)];
    if imm_mode(instruction) {
        first & sign_extend_spec(instruction & 0x1F, 5)
    } else {
        first & regs[src2_field(instruction)]
    }
}

impl Registers {
    /// BR: when the instruction's condition mask intersects the condition
    /// register, PC moves by the sign-extended 9-bit offset; otherwise
    /// nothing changes.
    pub fn perform_branch(&mut self, instruction: u16)
        requires
            old(self).wf(),
        ensures
            final(self).wf(),
            cond_field(instruction) & old(self).cond() != 0 ==> final(self).regs() == old(
                self,
            ).regs().update(8, wrap_add(old(self).pc(), sign_extend_spec(instruction & 0x1FF, 9))),
            cond_field(instruction) & old(self).cond() == 0 ==> final(self).regs() == old(
                self,
            ).regs(),
    {
        let program_counter_offset = Registers::sign_extend(instruction & 0x1FF, 9);
        let condition_mask = (instruction >> 9) & 0x7;
        if (condition_mask & self.read(RegisterCodes::ConditionFlags)) == 0 {
            return ;
        }
        let program_counter_value = wrapping_add(
            self.read(RegisterCodes::ProgramCounter),
            program_counter_offset,
        );
        self.set_program_counter(program_counter_value);
    }

    /// ADD: DR = SR1 + (SR2 or imm5), wrapping, then refresh the flags.
    pub fn perform_add(&mut self, instruction: u16)
        requires
            old(self).wf(),
        ensures
            final(self).wf(),
            final(self).regs() == with_result(
                old(self).regs(),
                dest_field(instruction),
                add_result(old(self).regs(), instruction),
            ),
    {
        proof {
            lemma_fields_bounded(instruction);
            assert((instruction >> 5) & 0x1 != 0 <==> (instruction >> 5) & 1 == 1) by (bit_vector);
        }
        let destination_register = RegisterCodes::from((instruction >> 9) & 0x7).unwrap();
        let first_operand_register = RegisterCodes::from((instruction >> 6) & 0x7).unwrap();
        let first_operand_register_value = self.read(first_operand_register);

        let new_value = {
            // whether we are in immediate mode
            let immediate_flag = (instruction >> 5) & 0x1;
            if immediate_flag != 0 {
                let immediate5 = Registers::sign_extend(instruction & 0x1F, 5);
                wrapping_add(first_operand_register_value, immediate5)
            } else {
                let second_operand_register = RegisterCodes::from(instruction & 0x7).unwrap();
                let second_operand_register_value = self.read(second_operand_register);
                wrapping_add(first_operand_register_value, second_operand_register_value)
            }
        };

        self.write(destination_register, new_value);
        self.update_flags(destination_register);
    }

    /// AND: DR = SR1 & (SR2 or imm5), then refresh the flags.
    pub fn perform_bitwise_and(&mut self, instruction: u16)
        requires
            old(self).wf(),
        ensures
            final(self).wf(),
            final(self).regs() == with_result(
                old(self).regs(),
                dest_field(instruction),
                and_result(old(self).regs(), instruction),
            ),
    {
        proof {
            lemma_fields_bounded(instruction);
            assert((instruction >> 5) & 0x1 != 0 <==> (instruction >> 5) & 1 == 1) by (bit_vector);
        }
        let destination_register = RegisterCodes::from((instruction >> 9) & 0x7).unwrap();
        let first_operand_register = RegisterCodes::from((instruction >> 6) & 0x7).unwrap();
        let first_operand_register_value = self.read(first_operand_register);

        let new_value = {
            // whether we are in immediate mode
            let immediate_flag = (instruction >> 5) & 0x1;
            if immediate_flag != 0 {
                let immediate5 = Registers::sign_extend(instruction & 0x1F, 5);
                first_operand_register_value & immediate5
            } else {
                let second_operand_register = RegisterCodes::from(instruction & 0x7).unwrap();
                let second_operand_register_value = self.read(second_operand_register);
                first_operand_register_value & second_operand_register_value
            }
        };

        self.write(destination_register, new_value);
        self.update_flags(destination_register);
    }

    /// NOT: DR = bitwise complement of SR1, then refresh the flags.
    pub fn perform_not(&mut self, instruction: u16)
        requires
            old(self).wf(),
        ensures
            final(self).wf(),
            final(self).regs() == with_result(
                old(self).regs(),
                dest_field(instruction),
                !old(self).reg(src1_field(instruction)),
            ),
    {
        proof {
            lemma_fields_bounded(instruction);
        }
        let destination_register = RegisterCodes::from((instruction >> 9) & 0x7).unwrap();
        let first_operand_register = RegisterCodes::from((instruction >> 6) & 0x7).unwrap();
        let new_value = !self.read(first_operand_register);
        self.write(destination_register, new_value);
        self.update_flags(destination_register);
    }

    /// JMP: PC jumps to the value of the base register.
    pub fn perform_jump(&mut self, instruction: u16)
        requires
            old(self).wf(),
        ensures
            final(self).wf(),
            final(self).regs() == old(self).regs().update(
                8,
                old(self).reg(src1_field(instruction)),
            ),
    {
        proof {
            lemma_fields_bounded(instruction);
        }
        let new_value_register = RegisterCodes::from((instruction >> 6) & 0x7).unwrap();
        let new_value = self.read(new_value_register);
        self.set_program_counter(new_value);
    }

    /// JSR/JSRR: save PC in R7, then jump either PC-relative through the
    /// 11-bit offset or to the base register, which is read after R7 was
    /// saved.
    pub fn perform_jump_register(&mut self, instruction: u16)
        requires
            old(self).wf(),
        ensures
            final(self).wf(),
            ({
                let saved = old(self).regs().update(7, old(self).pc());
                let target = if long_flag(instruction) {
                    wrap_add(old(self).pc(), sign_extend_spec(instruction & 0x7FF, 11))
                } else {
                    saved[src1_field(instruction)]
                };
                final(self).regs() == saved.update(8, target)
            }),
    {
        proof {
            lemma_fields_bounded(instruction);
            assert((instruction >> 11) & 1 != 0 <==> (instruction >> 11) & 1 == 1) by (bit_vector);
        }
        let program_counter = self.read(RegisterCodes::ProgramCounter);
        self.write(RegisterCodes::R7, program_counter);

        let new_value = {
            let long_flag_bit = (instruction >> 11) & 1;
            if long_flag_bit != 0 {
                let long_program_counter_offset = Registers::sign_extend(instruction & 0x7FF, 11);
                let program_counter = self.read(RegisterCodes::ProgramCounter);
                wrapping_add(program_counter, long_program_counter_offset)
            } else {
                let first_operand_register = RegisterCodes::from((instruction >> 6) & 0x7).unwrap();
                self.read(first_operand_register)
            }
        };

        self.set_program_counter(new_value);
    }

    /// LEA: DR = PC + off9, wrapping, then refresh the flags. No memory
    /// access takes place.
    pub fn perform_load_effective_address(&mut self, instruction: u16)
        requires
            old(self).wf(),
        ensures
            final(self).wf(),
            final(self).regs() == with_result(
                old(self).regs(),
                dest_field(instruction),
                wrap_add(old(self).pc(), sign_extend_spec(instruction & 0x1FF, 9)),
            ),
    {
        proof {
            lemma_fields_bounded(instruction);
        }
        let destination_register = RegisterCodes::from((instruction >> 9) & 0x7).unwrap();
        let program_counter_offset = Registers::sign_extend(instruction & 0x1FF, 9);
        let new_value = wrapping_add(
            self.read(RegisterCodes::ProgramCounter),
            program_counter_offset,
        );
        self.write(destination_register, new_value);
        self.update_flags(destination_register);
    }

    /// LD: DR = memory[PC + off9], then refresh the flags. The load goes
    /// through the device-aware read, so loading the keyboard-status
    /// address polls the keyboard.
    pub fn perform_load(&mut self, instruction: u16, memory: &mut Memory, input: &mut InputQueue)
        requires
            old(self).wf(),
            old(memory).wf(),
        ensures
            final(self).wf(),
            final(memory).wf(),
            ({
                let address = wrap_add(old(self).pc(), sign_extend_spec(instruction & 0x1FF, 9));
                &&& final(self).regs() == with_result(
                    old(self).regs(),
                    dest_field(instruction),
                    read_result(old(memory)@, old(input)@, address),
                )
                &&& final(memory)@ == mem_after_read(old(memory)@, old(input)@, address)
                &&& final(input)@ == input_after_read(old(input)@, address)
            }),
    {
        proof {
            lemma_fields_bounded(instruction);
        }
        let destination_register = RegisterCodes::from((instruction >> 9) & 0x7).unwrap();
        let program_counter_offset = Registers::sign_extend(instruction & 0x1FF, 9);
        let memory_address = wrapping_add(
            self.read(RegisterCodes::ProgramCounter),
            program_counter_offset,
        );
        let new_value = memory.read(memory_address, input);
        self.write(destination_register, new_value);
        self.update_flags(destination_register);
    }

    /// LDR: DR = memory[SR1 + off6], then refresh the flags; the same
    /// device-aware read as LD.
    pub fn perform_load_register(
        &mut self,
        instruction: u16,
        memory: &mut Memory,
        input: &mut InputQueue,
    )
        requires
            old(self).wf(),
            old(memory).wf(),
        ensures
            final(self).wf(),
            final(memory).wf(),
            ({
                let address = wrap_add(
                    old(self).reg(src1_field(instruction)),
                    sign_extend_spec(instruction & 0x3F, 6),
                );
                &&& final(self).regs() == with_result(
                    old(self).regs(),
                    dest_field(instruction),
                    read_result(old(memory)@, old(input)@, address),
                )
                &&& final(memory)@ == mem_after_read(old(memory)@, old(input)@, address)
                &&& final(input)@ == input_after_read(old(input)@, address)
            }),
    {
        proof {
            lemma_fields_bounded(instruction);
        }
        let destination_register = RegisterCodes::from((instruction >> 9) & 0x7).unwrap();
        let first_operand_register = RegisterCodes::from((instruction >> 6) & 0x7).unwrap();
        let offset = Registers::sign_extend(instruction & 0x3F, 6);
        let memory_address = wrapping_add(self.read(first_operand_register), offset);
        let new_value = memory.read(memory_address, input);
        self.write(destination_register, new_value);
        self.update_flags(destination_register);
    }

    /// LDI: the word at PC + off9 names the final address; DR is loaded
    /// from there, then the flags are refreshed. Both accesses go through
    /// the device-aware read, one after the other.
    pub fn perform_load_indirect(
        &mut self,
        instruction: u16,
        memory: &mut Memory,
        input: &mut InputQueue,
    )
        requires
            old(self).wf(),
            old(memory).wf(),
        ensures
            final(self).wf(),
            final(memory).wf(),
            ({
                let pointer_address = wrap_add(
                    old(self).pc(),
                    sign_extend_spec(instruction & 0x1FF, 9),
                );
                let mem_mid = mem_after_read(old(memory)@, old(input)@, pointer_address);
                let input_mid = input_after_read(old(input)@, pointer_address);
                let target = read_result(old(memory)@, old(input)@, pointer_address);
                &&& final(self).regs() == with_result(
                    old(self).regs(),
                    dest_field(instruction),
                    read_result(mem_mid, input_mid, target),
                )
                &&& final(memory)@ == mem_after_read(mem_mid, input_mid, target)
                &&& final(input)@ == input_after_read(input_mid, target)
            }),
    {
        proof {
            lemma_fields_bounded(instruction);
        }
        let destination_register = RegisterCodes::from((instruction >> 9) & 0x7).unwrap();
        let program_counter_offset = Registers::sign_extend(instruction & 0x1FF, 9);
        let pointer_address = wrapping_add(
            self.read(RegisterCodes::ProgramCounter),
            program_counter_offset,
        );
        let memory_address = memory.read(pointer_address, input);
        let memory_value = memory.read(memory_address, input);
        self.write(destination_register, memory_value);
        self.update_flags(destination_register);
    }

    /// ST: memory[PC + off9] = SR, where the DR field names the source.
    /// The flags are untouched.
    pub fn perform_store(&mut self, instruction: u16, memory: &mut Memory)
        requires
            old(self).wf(),
            old(memory).wf(),
        ensures
            final(self).regs() == old(self).regs(),
            final(memory).wf(),
            final(memory)@ == old(memory)@.update(
                wrap_add(old(self).pc(), sign_extend_spec(instruction & 0x1FF, 9)) as int,
                old(self).reg(dest_field(instruction)),
            ),
    {
        proof {
            lemma_fields_bounded(instruction);
        }
        let destination_register = RegisterCodes::from((instruction >> 9) & 0x7).unwrap();
        let program_counter_offset = Registers::sign_extend(instruction & 0x1FF, 9);
        let memory_address = wrapping_add(
            self.read(RegisterCodes::ProgramCounter),
            program_counter_offset,
        );
        memory.write(memory_address, self.read(destination_register));
    }

    /// STR: memory[SR1 + off6] = SR, where the DR field names the source.
    pub fn perform_store_register(&mut self, instruction: u16, memory: &mut Memory)
        requires
            old(self).wf(),
            old(memory).wf(),
        ensures
            final(self).regs() == old(self).regs(),
            final(memory).wf(),
            final(memory)@ == old(memory)@.update(
                wrap_add(
                    old(self).reg(src1_field(instruction)),
                    sign_extend_spec(instruction & 0x3F, 6),
                ) as int,
                old(self).reg(dest_field(instruction)),
            ),
    {
        proof {
            lemma_fields_bounded(instruction);
        }
        let destination_register = RegisterCodes::from((instruction >> 9) & 0x7).unwrap();
        let first_operand_register = RegisterCodes::from((instruction >> 6) & 0x7).unwrap();
        let offset = Registers::sign_extend(instruction & 0x3F, 6);
        let memory_address = wrapping_add(self.read(first_operand_register), offset);
        memory.write(memory_address, self.read(destination_register));
    }

    /// STI: the word at PC + off9 names the final address, read through
    /// the device-aware read; the source register is stored there.
    pub fn perform_store_indirect(
        &mut self,
        instruction: u16,
        memory: &mut Memory,
        input: &mut InputQueue,
    )
        requires
            old(self).wf(),
            old(memory).wf(),
        ensures
            final(self).regs() == old(self).regs(),
            final(memory).wf(),
            ({
                let pointer_address = wrap_add(
                    old(self).pc(),
                    sign_extend_spec(instruction & 0x1FF, 9),
                );
                let mem_mid = mem_after_read(old(memory)@, old(input)@, pointer_address);
                let target = read_result(old(memory)@, old(input)@, pointer_address);
                &&& final(memory)@ == mem_mid.update(
                    target as int,
                    old(self).reg(dest_field(instruction)),
                )
                &&& final(input)@ == input_after_read(old(input)@, pointer_address)
            }),
    {
        proof {
            lemma_fields_bounded(instruction);
        }
        let destination_register = RegisterCodes::from((instruction >> 9) & 0x7).unwrap();
        let program_counter_offset = Registers::sign_extend(instruction & 0x1FF, 9);
        let memory_to_read_address = wrapping_add(
            self.read(RegisterCodes::ProgramCounter),
            program_counter_offset,
        );
        let memory_address = memory.read(memory_to_read_address, input);
        memory.write(memory_address, self.read(destination_register));
    }

    /// RTI is not available in user mode; the routine itself changes
    /// nothing, and the dispatcher reports reaching it as a fault.
    pub fn perform_unused(&self) {
    }

    /// The reserved opcode has no behavior; the routine itself changes
    /// nothing, and the dispatcher reports reaching it as a fault.
    pub fn perform_reserved(&self) {
    }
}

/// The six trap vectors the machine serves.
#[derive(Clone, Copy, Debug, PartialEq, Eq, Structural)]
pub enum TrapCodes {
    GetCharacter,            // GETC
    OutputCharacter,         // OUT
    OutputWord,              // PUTS
    EchoCharacterToTerminal, // IN
    OutputByteString,        // PUTSP
    Halt,                    // HALT
}

impl TrapCodes {
    /// The vector this service answers to.
    pub open spec fn code(self) -> u16 {
        match self {
            TrapCodes::GetCharacter => 0x20,
            TrapCodes::OutputCharacter => 0x21,
            TrapCodes::OutputWord => 0x22,
            TrapCodes::EchoCharacterToTerminal => 0x23,
            TrapCodes::OutputByteString => 0x24,
            TrapCodes::Halt => 0x25,
        }
    }

    /// Decode a trap vector: the six served vectors and nothing else.
    pub fn from(value: u16) -> (r: Option<TrapCodes>)
        ensures
            0x20 <= value <= 0x25 ==> (r matches Some(c) && c.code() == value),
            !(0x20 <= value <= 0x25) ==> r is None,
    {
        match value {
            0x20 => Some(TrapCodes::GetCharacter),
            0x21 => Some(TrapCodes::OutputCharacter),
            0x22 => Some(TrapCodes::OutputWord),
            0x23 => Some(TrapCodes::EchoCharacterToTerminal),
            0x24 => Some(TrapCodes::OutputByteString),
            0x25 => Some(TrapCodes::Halt),
            _ => None,
        }
    }
}

/// What a trap asked the machine loop to do next: carry on, stop, or
/// report a vector no service answers.
#[derive(Clone, Copy, Debug, PartialEq, Eq, Structural)]
pub enum TrapOutcome {
    Continue,
    Halt,
    Unknown,
}

/// The prompt the IN service prints before it reads a character.
pub open spec fn prompt_bytes() -> Seq<u8> {
    seq![
        0x45u8, 0x6Eu8, 0x74u8, 0x65u8, 0x72u8, 0x20u8, 0x61u8, 0x20u8, 0x63u8, 0x68u8, 0x61u8,
        0x72u8, 0x61u8, 0x63u8, 0x74u8, 0x65u8, 0x72u8, 0x3Au8, 0x20u8,
    ]
}

/// The low bytes of `count` consecutive words starting at `start`, the
/// address wrapping as it advances.
pub open spec fn low_bytes_upto(mem: Seq<u16>, start: u16, count: nat) -> Seq<u8> {
    Seq::new(count, |i: int| (mem[wrap_at(start, i) as int] & 0xFF) as u8)
}

/// The characters one word contributes to a packed string: its low byte,
/// then its high byte when that byte is not zero.
pub open spec fn word_bytes(w: u16) -> Seq<u8> {
    if w >> 8 == 0 {
        seq![(w & 0xFF) as u8]
    } else {
        seq![(w & 0xFF) as u8, (w >> 8) as u8]
    }
}

/// The packed bytes of `count` consecutive words starting at `start`.
pub open spec fn packed_bytes_upto(mem: Seq<u16>, start: u16, count: nat) -> Seq<u8>
    decreases count,
{
    if count == 0 {
        Seq::empty()
    } else {
        packed_bytes_upto(mem, start, (count - 1) as nat) + word_bytes(
            mem[wrap_at(start, count - 1) as int],
        )
    }
}

/// The string walk from `start` ends after `k` words: every word before
/// offset `k` is nonzero, and either word `k` is the zero terminator or
/// the walk has visited the whole address space without finding one.
pub open spec fn walk_ends_at(mem: Seq<u16>, start: u16, k: nat) -> bool {
    &&& k <= 0x10000
    &&& (forall|i: int| 0 <= i < k ==> mem[wrap_at(start, i) as int] != 0)
    &&& (k < 0x10000 ==> mem[wrap_at(start, k as int) as int] == 0)
}

/// The complete effect of the trap dispatcher on registers, pending input
/// and output, for every vector: R7 holds the return address, and the
/// selected service has done its work.
pub open spec fn trap_effect(
    regs0: Seq<u16>,
    mem: Seq<u16>,
    in0: Seq<u8>,
    out0: Seq<u8>,
    instruction: u16,
    regs1: Seq<u16>,
    in1: Seq<u8>,
    out1: Seq<u8>,
    r: TrapOutcome,
) -> bool {
    let vector = trap_vector(instruction);
    let saved = regs0.update(7, regs0[8]);
    &&& (vector == 0x20 ==> in0.len() > 0 && regs1 == saved.update(0, in0[0] as u16) && in1
        == in0.drop_first() && out1 == out0 && r == TrapOutcome::Continue)
    &&& (vector == 0x21 ==> regs1 == saved && in1 == in0 && out1 == out0.push(
        (regs0[0] & 0xFF) as u8,
    ) && r == TrapOutcome::Continue)
    &&& (vector == 0x22 ==> regs1 == saved && in1 == in0 && r == TrapOutcome::Continue && (
    exists|k: nat|
        #[trigger] walk_ends_at(mem, regs0[0], k) && out1 == out0 + low_bytes_upto(
            mem,
            regs0[0],
            k,
        )))
    &&& (vector == 0x23 ==> in0.len() > 0 && regs1 == saved.update(0, in0[0] as u16) && in1
        == in0.drop_first() && out1 == out0 + prompt_bytes() + seq![in0[0]] && r
        == TrapOutcome::Continue)
    &&& (vector == 0x24 ==> regs1 == saved && in1 == in0 && r == TrapOutcome::Continue && (
    exists|k: nat|
        #[trigger] walk_ends_at(mem, regs0[0], k) && out1 == out0 + packed_bytes_upto(
            mem,
            regs0[0],
            k,
        )))
    &&& (vector == 0x25 ==> regs1 == saved && in1 == in0 && out1 == out0 && r
        == TrapOutcome::Halt)
    &&& (!(0x20 <= vector <= 0x25) ==> regs1 == saved && in1 == in0 && out1 == out0 && r
        == TrapOutcome::Unknown)
}

/// Emit the IN service's prompt on the output stream.
fn write_prompt(output: &mut Vec<u8>)
    ensures
        final(output)@ == old(output)@ + prompt_bytes(),
{
    output.push(0x45);
    output.push(0x6E);
    output.push(0x74);
    output.push(0x65);
    output.push(0x72);
    output.push(0x20);
    output.push(0x61);
    output.push(0x20);
    output.push(0x63);
    output.push(0x68);
    output.push(0x61);
    output.push(0x72);
    output.push(0x61);
    output.push(0x63);
    output.push(0x74);
    output.push(0x65);
    output.push(0x72);
    output.push(0x3A);
    output.push(0x20);
    proof {
        assert(output@ =~= old(output)@ + prompt_bytes());
    }
}

impl Registers {
    /// GETC: one byte from the keyboard into R0, high byte zero, no echo.
    fn perform_get_character_trap(&mut self, input: &mut InputQueue)
        requires
            old(self).wf(),
            old(input)@.len() > 0,
        ensures
            final(self).wf(),
            final(self).regs() == old(self).regs().update(0, old(input)@[0] as u16),
            final(input)@ == old(input)@.drop_first(),
    {
        let byte = input.poll().unwrap();
        self.write(RegisterCodes::R0, byte as u16);
    }

    /// OUT: the low byte of R0 goes to the output stream.
    fn perform_output_character_trap(&self, output: &mut Vec<u8>)
        requires
            self.wf(),
        ensures
            final(output)@ == old(output)@.push((self.reg(0) & 0xFF) as u8),
    {
        let character = self.read(RegisterCodes::R0);
        proof {
            assert(character & 0xFF < 256) by (bit_vector);
        }
        output.push((character & 0xFF) as u8);
    }

    /// PUTS: walk the words from the address in R0 until a zero word,
    /// sending each word's low byte to the output stream. The walk looks
    /// at raw cells; it does not poll the keyboard. A walk that has
    /// visited the whole address space without finding a terminator stops
    /// rather than cycle forever.
    #[verifier::loop_isolation(false)]
    fn perform_output_word_trap(&self, memory: &Memory, output: &mut Vec<u8>)
        requires
            self.wf(),
            memory.wf(),
        ensures
            exists|k: nat|
                #[trigger] walk_ends_at(memory@, self.reg(0), k) && final(output)@ == old(
                    output,
                )@ + low_bytes_upto(memory@, self.reg(0), k),
    {
        let start = self.read(RegisterCodes::R0);
        let mut memory_address = start;
        let mut character = memory.peek(memory_address);
        let mut steps: usize = 0;
        proof {
            vstd::arithmetic::div_mod::lemma_small_mod(start as nat, 0x10000nat);
            assert(output@ =~= output@ + low_bytes_upto(memory@, start, 0nat));
        }
        while character != 0 && steps < MEMORY_SIZE
            invariant
                steps <= MEMORY_SIZE,
                memory_address == wrap_at(start, steps as int),
                character == memory@[memory_address as int],
                forall|i: int| 0 <= i < steps ==> memory@[wrap_at(start, i) as int] != 0,
                output@ == old(output)@ + low_bytes_upto(memory@, start, steps as nat),
            decreases MEMORY_SIZE - steps,
        {
            output.push((character & 0xFF) as u8);
            proof {
                assert(low_bytes_upto(memory@, start, (steps + 1) as nat) =~= low_bytes_upto(
                    memory@,
                    start,
                    steps as nat,
                ).push((memory@[wrap_at(start, steps as int) as int] & 0xFF) as u8));
                assert(old(output)@ + low_bytes_upto(memory@, start, (steps + 1) as nat) =~= (old(
                    output,
                )@ + low_bytes_upto(memory@, start, steps as nat)).push(
                    (memory@[wrap_at(start, steps as int) as int] & 0xFF) as u8,
                ));
                lemma_wrap_at_step(start, steps as int);
            }
            memory_address = wrapping_add(memory_address, 1);
            character = memory.peek(memory_address);
            steps = steps + 1;
        }
        proof {
            assert(walk_ends_at(memory@, start, steps as nat));
        }
    }

    /// IN: prompt on the output stream, one byte from the keyboard into
    /// R0, echoed back to the output stream.
    fn perform_echo_character_to_terminal_trap(
        &mut self,
        input: &mut InputQueue,
        output: &mut Vec<u8>,
    )
        requires
            old(self).wf(),
            old(input)@.len() > 0,
        ensures
            final(self).wf(),
            final(self).regs() == old(self).regs().update(0, old(input)@[0] as u16),
            final(input)@ == old(input)@.drop_first(),
            final(output)@ == old(output)@ + prompt_bytes() + seq![old(input)@[0]],
    {
        write_prompt(output);
        let byte = input.poll().unwrap();
        output.push(byte);
        self.write(RegisterCodes::R0, byte as u16);
        proof {
            assert(old(output)@ + prompt_bytes() + seq![old(input)@[0]] =~= (old(output)@
                + prompt_bytes()).push(old(input)@[0]));
        }
    }

    /// PUTSP: walk the words from the address in R0 until a zero word,
    /// sending each word's packed characters, low byte first, the high
    /// byte only when it is not zero. Raw cells and the same stopping rule
    /// as PUTS.
    #[verifier::loop_isolation(false)]
    fn perform_output_byte_string_trap(&self, memory: &Memory, output: &mut Vec<u8>)
        requires
            self.wf(),
            memory.wf(),
        ensures
            exists|k: nat|
                #[trigger] walk_ends_at(memory@, self.reg(0), k) && final(output)@ == old(
                    output,
                )@ + packed_bytes_upto(memory@, self.reg(0), k),
    {
        let start = self.read(RegisterCodes::R0);
        let mut memory_address = start;
        let mut character = memory.peek(memory_address);
        let mut steps: usize = 0;
        proof {
            vstd::arithmetic::div_mod::lemma_small_mod(start as nat, 0x10000nat);
            assert(output@ =~= output@ + packed_bytes_upto(memory@, start, 0nat));
        }
        while character != 0 && steps < MEMORY_SIZE
            invariant
                steps <= MEMORY_SIZE,
                memory_address == wrap_at(start, steps as int),
                character == memory@[memory_address as int],
                forall|i: int| 0 <= i < steps ==> memory@[wrap_at(start, i) as int] != 0,
                output@ == old(output)@ + packed_bytes_upto(memory@, start, steps as nat),
            decreases MEMORY_SIZE - steps,
        {
            output.push((character & 0xFF) as u8);
            let high_byte = character >> 8;
            if high_byte != 0 {
                output.push(high_byte as u8);
            }
            proof {
                assert(character >> 8 < 256) by (bit_vector);
                assert(packed_bytes_upto(memory@, start, (steps + 1) as nat) == packed_bytes_upto(
                    memory@,
                    start,
                    steps as nat,
                ) + word_bytes(memory@[wrap_at(start, steps as int) as int]));
                assert(output@ =~= old(output)@ + packed_bytes_upto(
                    memory@,
                    start,
                    (steps + 1) as nat,
                ));
                lemma_wrap_at_step(start, steps as int);
            }
            memory_address = wrapping_add(memory_address, 1);
            character = memory.peek(memory_address);
            steps = steps + 1;
        }
        proof {
            assert(walk_ends_at(memory@, start, steps as nat));
        }
    }

    /// HALT: ask the loop to stop; whoever drives the machine flushes the
    /// output it has gathered.
    fn perform_halt_trap(&self) -> (r: TrapOutcome)
        ensures
            r == TrapOutcome::Halt,
    {
        TrapOutcome::Halt
    }

    /// TRAP: save the return address in R7, then run the service routine
    /// the low byte of the instruction selects. A vector no service
    /// answers is reported to the caller, which treats it as a fault.
    pub fn perform_execute_trap(
        &mut self,
        instruction: u16,
        memory: &Memory,
        input: &mut InputQueue,
        output: &mut Vec<u8>,
    ) -> (r: TrapOutcome)
        requires
            old(self).wf(),
            memory.wf(),
            trap_vector(instruction) == 0x20 || trap_vector(instruction) == 0x23 ==> old(
                input,
            )@.len() > 0,
        ensures
            final(self).wf(),
            trap_effect(
                old(self).regs(),
                memory@,
                old(input)@,
                old(output)@,
                instruction,
                final(self).regs(),
                final(input)@,
                final(output)@,
                r,
            ),
    {
        proof {
            lemma_fields_bounded(instruction);
        }
        let pc_value = self.read(RegisterCodes::ProgramCounter);
        self.write(RegisterCodes::R7, pc_value);

        let trap_code = match TrapCodes::from(instruction & 0xFF) {
            Some(value) => value,
            None => {
                return TrapOutcome::Unknown;
            },
        };
        match trap_code {
            TrapCodes::GetCharacter => {
                self.perform_get_character_trap(input);
                TrapOutcome::Continue
            },
            TrapCodes::OutputCharacter => {
                self.perform_output_character_trap(output);
                TrapOutcome::Continue
            },
            TrapCodes::OutputWord => {
                self.perform_output_word_trap(memory, output);
                TrapOutcome::Continue
            },
            TrapCodes::EchoCharacterToTerminal => {
                self.perform_echo_character_to_terminal_trap(input, output);
                TrapOutcome::Continue
            },
            TrapCodes::OutputByteString => {
                self.perform_output_byte_string_trap(memory, output);
                TrapOutcome::Continue
            },
            TrapCodes::Halt => self.perform_halt_trap(),
        }
    }
}

} // verus!
