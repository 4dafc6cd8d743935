pub mod condition_flags;
pub mod input;
pub mod instruction_set;
pub mod memory;
pub mod registers;
pub mod virtual_machine;
pub mod word;
