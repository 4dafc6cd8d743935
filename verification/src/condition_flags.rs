use vstd::prelude::*;

verus! {

/// The three condition codes. The condition register holds exactly one of
/// them at any time, recomputed after every instruction that defines a
/// destination register's value.
#[derive(Clone, Copy, Debug, PartialEq, Eq, Structural)]
pub enum ConditionFlags {
    Positive,
    Zero,
    Negative,
}

impl ConditionFlags {
    /// The one-hot bit pattern this flag occupies in the condition register.
    pub open spec fn spec_word(self) -> u16 {
        match self {
            ConditionFlags::Positive => 1,
            ConditionFlags::Zero => 2,
            ConditionFlags::Negative => 4,
        }
    }

    /// Executable form of `spec_word`.
    pub fn word(self) -> (r: u16)
        ensures
            r == self.spec_word(),
    {
        match self {
            ConditionFlags::Positive => 1,
            ConditionFlags::Zero => 2,
            ConditionFlags::Negative => 4,
        }
    }
}

/// The flag that classifies a just-written register value: zero, negative
/// (bit 15 set), or positive.
pub open spec fn flag_of(value: u16) -> ConditionFlags {
    if value == 0 {
        ConditionFlags::Zero
    } else if value >= 0x8000 {
        ConditionFlags::Negative
    } else {
        ConditionFlags::Positive
    }
}

/// The bit pattern the condition register holds after classifying `value`.
pub open spec fn flag_word_of(value: u16) -> u16 {
    flag_of(value).spec_word()
}

/// A condition-register value is well formed when it holds exactly one of
/// the three flags.
pub open spec fn flag_valid(word: u16) -> bool {
    word == 1 || word == 2 || word == 4
}

/// After any flag update, exactly one of Positive, Zero and Negative is in
/// force, and it matches the zero-ness and the sign bit of the value that
/// was classified.
pub proof fn lemma_flag_classification(value: u16)
    ensures
        flag_valid(flag_word_of(value)),
        flag_of(value) == ConditionFlags::Zero <==> value == 0,
        flag_of(value) == ConditionFlags::Negative <==> value >> 15 == 1,
        flag_of(value) == ConditionFlags::Positive <==> (value != 0 && value >> 15 == 0),
{
    assert(value >= 0x8000 <==> value >> 15 == 1) by (bit_vector);
    assert(value < 0x8000 <==> value >> 15 == 0) by (bit_vector);
}

} // verus!
